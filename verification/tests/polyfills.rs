use slate::hex::{bytes_to_hex, hex_to_bytes, hex_val};
use slate::polyfills::base64::{atob_decode, btoa_encode, lookup_b64, Base64Error};
use slate::polyfills::console::{log_line, LogLevel};
use slate::polyfills::crypto::{random_hex, random_uuid, subtle_digest_hex, uuid_from_bytes};
use slate::polyfills::headers::JsHeaders;
use slate::polyfills::js_value::JsInit;
use slate::polyfills::search_params::JsUrlSearchParams;
use slate::polyfills::text_codec::{JsTextDecoder, JsTextEncoder};
use slate::polyfills::urlencoded::{percent_encode, safe_decode};
use slate::polyfills::web_url::{localized, JsUrl, JsUrlError};
use slate::url_parts::UrlParts;

fn pair(a: &str, b: &str) -> (String, String) {
    (a.to_string(), b.to_string())
}

fn item(a: &str, b: &str) -> Option<(Option<String>, Option<String>)> {
    Some((Some(a.to_string()), Some(b.to_string())))
}

#[test]
fn btoa_pads_to_four() {
    assert_eq!(btoa_encode("").unwrap(), "");
    assert_eq!(btoa_encode("f").unwrap(), "Zg==");
    assert_eq!(btoa_encode("fo").unwrap(), "Zm8=");
    assert_eq!(btoa_encode("foo").unwrap(), "Zm9v");
    assert_eq!(btoa_encode("foob").unwrap(), "Zm9vYg==");
    assert_eq!(btoa_encode("foobar").unwrap(), "Zm9vYmFy");
    assert_eq!(btoa_encode("\u{ff}\u{fe}\u{fd}").unwrap(), "//79");
    assert_eq!(btoa_encode("\u{fb}\u{ef}\u{be}").unwrap(), "++++");
}

#[test]
fn btoa_refuses_what_is_not_latin1() {
    assert_eq!(btoa_encode("a\u{100}"), Err(Base64Error::OutsideLatin1));
    assert_eq!(Base64Error::OutsideLatin1.message(), "btoa: character outside Latin1 range");
}

#[test]
fn atob_forgives() {
    assert_eq!(atob_decode("Zm9v").unwrap(), "foo");
    assert_eq!(atob_decode("Zm8=").unwrap(), "fo");
    assert_eq!(atob_decode("Zm8").unwrap(), "fo");
    assert_eq!(atob_decode("Zg==").unwrap(), "f");
    assert_eq!(atob_decode("Zg").unwrap(), "f");
    assert_eq!(atob_decode(" Z m\n9\tv\r\u{c}").unwrap(), "foo");
    assert_eq!(atob_decode("").unwrap(), "");
    assert_eq!(atob_decode("//79").unwrap(), "\u{ff}\u{fe}\u{fd}");
}

#[test]
fn atob_refuses_what_is_not_base64() {
    assert_eq!(atob_decode("Y"), Err(Base64Error::Truncated));
    assert_eq!(atob_decode("YWJjZ"), Err(Base64Error::Truncated));
    assert_eq!(atob_decode("YW-j"), Err(Base64Error::InvalidCharacter));
    assert_eq!(atob_decode("Y==="), Err(Base64Error::InvalidCharacter));
    assert_eq!(atob_decode("Zg="), Err(Base64Error::InvalidCharacter));
    assert_eq!(Base64Error::Truncated.message(), "atob: string to decode is not correctly encoded");
    assert_eq!(Base64Error::InvalidCharacter.message(), "atob: invalid character");
}

#[test]
fn atob_undoes_btoa() {
    let all: String = (0..=255u8).map(|b| b as char).collect();
    for n in 0..=all.chars().count() {
        let part: String = all.chars().take(n).collect();
        assert_eq!(atob_decode(&btoa_encode(&part).unwrap()).unwrap(), part);
    }
}

#[test]
fn base64_values() {
    assert_eq!(lookup_b64(b'A'), 0);
    assert_eq!(lookup_b64(b'z'), 51);
    assert_eq!(lookup_b64(b'9'), 61);
    assert_eq!(lookup_b64(b'+'), 62);
    assert_eq!(lookup_b64(b'/'), 63);
    assert_eq!(lookup_b64(b'='), 0);
}

#[test]
fn hexadecimal_text() {
    assert_eq!(bytes_to_hex(&[]), "");
    assert_eq!(bytes_to_hex(&[0x00, 0x0f, 0xa5, 0xff]), "000fa5ff");
    assert_eq!(hex_to_bytes("000fA5ff"), vec![0x00, 0x0f, 0xa5, 0xff]);
    assert_eq!(hex_to_bytes("zz41"), vec![0x41]);
    assert_eq!(hex_to_bytes("414"), vec![0x41]);
    assert_eq!(hex_to_bytes("+a"), vec![0x0a]);
    assert_eq!(hex_to_bytes("a+"), Vec::<u8>::new());
    assert_eq!(hex_val(b'7'), Some(7));
    assert_eq!(hex_val(b'c'), Some(12));
    assert_eq!(hex_val(b'F'), Some(15));
    assert_eq!(hex_val(b'g'), None);
    let all: Vec<u8> = (0..=255).collect();
    assert_eq!(hex_to_bytes(&bytes_to_hex(&all)), all);
}

#[test]
fn form_encoding() {
    assert_eq!(percent_encode("a b&c=d"), "a+b%26c%3Dd");
    assert_eq!(percent_encode("A-Z_0.9*~"), "A-Z_0.9*%7E");
    assert_eq!(percent_encode("é"), "%C3%A9");
    assert_eq!(percent_encode("+"), "%2B");
}

#[test]
fn form_decoding() {
    assert_eq!(safe_decode("%C3%A9"), "é");
    assert_eq!(safe_decode("a+b%26c%3dd"), "a b&c=d");
    assert_eq!(safe_decode("plain"), "plain");
    assert_eq!(safe_decode("日本"), "日本");
}

#[test]
fn malformed_form_text_is_kept() {
    assert_eq!(safe_decode("100%"), "100%");
    assert_eq!(safe_decode("%zz"), "%zz");
    assert_eq!(safe_decode("a+%4"), "a+%4");
    assert_eq!(safe_decode("%ff"), "%ff");
    assert_eq!(safe_decode("%C3%28"), "%C3%28");
}

#[test]
fn form_decoding_undoes_encoding() {
    let samples = vec!["", " ", "a b", "50% off & more=?", "é日本\u{1f600}", "\u{0}\u{7f}"];
    for s in samples {
        assert_eq!(safe_decode(&percent_encode(s)), s);
    }
}

#[test]
fn params_from_a_query() {
    let p = JsUrlSearchParams::from_query_string("?a=1&b=two+words&a=%C3%A9");
    assert_eq!(p.entries(), vec![pair("a", "1"), pair("b", "two words"), pair("a", "é")]);
    assert_eq!(p.get("a"), Some("1".to_string()));
    assert_eq!(p.get("c"), None);
    assert_eq!(p.getAll("a"), vec!["1".to_string(), "é".to_string()]);
    assert!(p.has("b"));
    assert!(!p.has("B"));
    assert_eq!(p.size(), 3);
    assert_eq!(p.keys(), vec!["a".to_string(), "b".to_string(), "a".to_string()]);
    assert_eq!(p.values(), vec!["1".to_string(), "two words".to_string(), "é".to_string()]);
}

#[test]
fn odd_queries() {
    assert_eq!(JsUrlSearchParams::from_query_string("").entries(), vec![]);
    assert_eq!(JsUrlSearchParams::from_query_string("??").entries(), vec![]);
    assert_eq!(JsUrlSearchParams::from_query_string("??a").entries(), vec![pair("a", "")]);
    assert_eq!(JsUrlSearchParams::from_query_string("a=b=c").entries(), vec![pair("a", "b=c")]);
    assert_eq!(
        JsUrlSearchParams::from_query_string("&a=1&").entries(),
        vec![pair("", ""), pair("a", "1"), pair("", "")]
    );
    assert_eq!(JsUrlSearchParams::from_query_string("=").entries(), vec![pair("", "")]);
}

#[test]
fn params_from_other_values() {
    assert_eq!(JsUrlSearchParams::new(None).entries(), vec![]);
    assert_eq!(JsUrlSearchParams::new(Some(JsInit::Other)).entries(), vec![]);
    assert_eq!(
        JsUrlSearchParams::new(Some(JsInit::Text("?x=1".to_string()))).entries(),
        vec![pair("x", "1")]
    );
    let list = vec![item("a", "1"), None, Some((Some("b".to_string()), None)), Some((None, None))];
    assert_eq!(
        JsUrlSearchParams::new(Some(JsInit::List(list))).entries(),
        vec![pair("a", "1"), pair("b", ""), pair("", "")]
    );
    assert_eq!(
        JsUrlSearchParams::new(Some(JsInit::Record(vec![pair("K", "v")]))).entries(),
        vec![pair("K", "v")]
    );
}

#[test]
fn params_can_be_changed() {
    let mut p = JsUrlSearchParams::from_query_string("a=1&b=2&a=3&c=4&a=5");
    p.set("a".to_string(), "x".to_string());
    assert_eq!(p.entries(), vec![pair("a", "x"), pair("b", "2"), pair("c", "4")]);
    p.set("d".to_string(), "y".to_string());
    assert_eq!(p.getAll("d"), vec!["y".to_string()]);
    p.append("b".to_string(), "z".to_string());
    assert_eq!(p.getAll("b"), vec!["2".to_string(), "z".to_string()]);
    p.delete_param("b");
    assert!(!p.has("b"));
    assert_eq!(p.toString(), "a=x&c=4&d=y");
}

#[test]
fn reading_undoes_writing_params() {
    let mut p = JsUrlSearchParams::new(None);
    assert_eq!(p.toString(), "");
    p.append("".to_string(), "".to_string());
    p.append("a&b=c?".to_string(), "50% + é".to_string());
    p.append("a&b=c?".to_string(), "".to_string());
    assert_eq!(p.toString(), "=&a%26b%3Dc%3F=50%25+%2B+%C3%A9&a%26b%3Dc%3F=");
    let q = JsUrlSearchParams::from_query_string(&p.toString());
    assert_eq!(q.entries(), p.entries());
}

#[test]
fn header_names_stay_in_lowercase() {
    let mut h = JsHeaders::new(Some(JsInit::Record(vec![pair("Content-Type", "A"), pair("\u{c9}TAT", "B")])));
    h.append("X-One", "C".to_string());
    h.set("SET", "D".to_string());
    h.append("x-ONE", "E".to_string());
    assert_eq!(h.keys(), vec!["content-type", "\u{e9}tat", "x-one", "set"]);
    h.delete_header("X-ONE");
    assert_eq!(h.entries(), vec![pair("content-type", "A"), pair("\u{e9}tat", "B"), pair("set", "D")]);
}

#[test]
fn header_names_ignore_case() {
    let mut h = JsHeaders::new(Some(JsInit::Record(vec![pair("Content-Type", "text/html")])));
    assert_eq!(h.get("CONTENT-TYPE"), Some("text/html".to_string()));
    assert!(h.has("content-type"));
    assert_eq!(h.entries(), vec![pair("content-type", "text/html")]);
    h.set("CONTENT-type", "text/plain".to_string());
    assert_eq!(h.get("content-type"), Some("text/plain".to_string()));
    h.delete_header("Content-TYPE");
    assert_eq!(h.get("content-type"), None);
    assert!(!h.has("content-type"));
}

#[test]
fn header_names_beyond_ascii() {
    let mut h = JsHeaders::new(None);
    h.set("\u{c9}T\u{c9}", "1".to_string());
    assert_eq!(h.entries(), vec![pair("\u{e9}t\u{e9}", "1")]);
    assert_eq!(h.get("\u{e9}T\u{c9}"), Some("1".to_string()));
}

#[test]
fn header_values_are_joined() {
    let mut h = JsHeaders::new(None);
    assert_eq!(h.get("accept"), None);
    h.append("Accept", "a".to_string());
    h.append("x", "1".to_string());
    h.append("accept", "b".to_string());
    assert_eq!(h.get("accept"), Some("a, b".to_string()));
    assert_eq!(h.keys(), vec!["accept".to_string(), "x".to_string()]);
    assert_eq!(h.values(), vec!["a".to_string(), "1".to_string(), "b".to_string()]);
    h.set("accept", "c".to_string());
    assert_eq!(h.entries(), vec![pair("x", "1"), pair("accept", "c")]);
}

#[test]
fn cookies_are_listed_one_by_one() {
    let list = vec![item("Set-Cookie", "a=1"), item("x", "y"), item("SET-COOKIE", "b=2"), None];
    let h = JsHeaders::new(Some(JsInit::List(list)));
    assert_eq!(h.get_set_cookie(), vec!["a=1".to_string(), "b=2".to_string()]);
    assert_eq!(h.get("set-cookie"), Some("a=1, b=2".to_string()));
}

#[test]
fn headers_can_be_copied() {
    let mut h = JsHeaders::new(None);
    h.append("Accept", "a".to_string());
    h.append("ACCEPT", "b".to_string());
    h.append("x", "".to_string());
    let items = h.entries().iter().map(|(k, v)| item(k, v)).collect();
    assert_eq!(JsHeaders::new(Some(JsInit::List(items))).entries(), h.entries());
}

#[test]
fn headers_from_a_string_are_empty() {
    assert_eq!(JsHeaders::new(Some(JsInit::Text("a: b".to_string()))).entries(), vec![]);
    assert_eq!(JsHeaders::new(Some(JsInit::Other)).entries(), vec![]);
}

#[test]
fn url_components() {
    let u = JsUrl::new("https://user@Example.COM:8443/a/b?x=1#frag", None).ok().unwrap();
    assert_eq!(u.get_protocol(), "https:");
    assert_eq!(u.get_hostname(), "example.com");
    assert_eq!(u.get_port(), "8443");
    assert_eq!(u.get_host(), "example.com:8443");
    assert_eq!(u.get_origin(), "https://example.com:8443");
    assert_eq!(u.get_pathname(), "/a/b");
    assert_eq!(u.get_search(), "?x=1");
    assert_eq!(u.get_hash(), "#frag");
    assert_eq!(u.get_href(), "https://user@example.com:8443/a/b?x=1#frag");
    assert_eq!(u.js_to_string(), u.get_href());
    assert_eq!(u.js_to_json(), u.get_href());
}

#[test]
fn url_without_the_optional_parts() {
    let u = JsUrl::new("http://example.com:80", None).ok().unwrap();
    assert_eq!(u.get_port(), "");
    assert_eq!(u.get_host(), "example.com");
    assert_eq!(u.get_origin(), "http://example.com");
    assert_eq!(u.get_pathname(), "/");
    assert_eq!(u.get_search(), "");
    assert_eq!(u.get_hash(), "");
    assert_eq!(u.get_href(), "http://example.com/");
}

#[test]
fn relative_urls_belong_to_localhost() {
    let u = JsUrl::new("/a?b", None).ok().unwrap();
    assert_eq!(u.get_href(), "http://localhost/a?b");
    let u = JsUrl::new("a", None).ok().unwrap();
    assert_eq!(u.get_href(), "http://localhost/a");
    assert_eq!(localized("/x"), "http://localhost/x");
    assert_eq!(localized("x"), "http://localhost/x");
    assert_eq!(localized(""), "http://localhost/");
}

#[test]
fn urls_are_resolved_against_a_base() {
    let u = JsUrl::new("../c?d", Some("https://example.com/a/b/")).ok().unwrap();
    assert_eq!(u.get_href(), "https://example.com/a/c?d");
    let u = JsUrl::new("https://other.org/", Some("https://example.com/a")).ok().unwrap();
    assert_eq!(u.get_href(), "https://other.org/");
    let u = JsUrl::new("c", Some("/a/b")).ok().unwrap();
    assert_eq!(u.get_href(), "http://localhost/a/c");
}

#[test]
fn broken_urls() {
    assert_eq!(JsUrl::new("http://[", None).err(), None);
    assert_eq!(JsUrl::new("http://[", Some("http://a/")).err(), Some(JsUrlError::InvalidWithBase));
    assert_eq!(JsUrlError::Invalid.message(), "Invalid URL");
    assert_eq!(JsUrlError::InvalidBase.message(), "Invalid base URL");
    assert_eq!(JsUrlError::InvalidWithBase.message(), "Invalid URL with base");
}

#[test]
fn components_of_given_parts() {
    let parts = UrlParts {
        scheme: "ws".to_string(),
        hostname: Some("h".to_string()),
        port: Some(0),
        path: "/p".to_string(),
        query: Some("".to_string()),
        fragment: None,
        href: "ws://h:0/p?".to_string(),
    };
    let u = JsUrl::from_url(parts);
    assert_eq!(u.get_port(), "0");
    assert_eq!(u.get_host(), "h:0");
    assert_eq!(u.get_origin(), "ws://h:0");
    assert_eq!(u.get_search(), "?");
    let parts = UrlParts {
        scheme: "data".to_string(),
        hostname: None,
        port: None,
        path: "x".to_string(),
        query: None,
        fragment: Some("f".to_string()),
        href: "data:x#f".to_string(),
    };
    let u = JsUrl::from_url(parts);
    assert_eq!(u.get_hostname(), "");
    assert_eq!(u.get_origin(), "data://");
    assert_eq!(u.get_hash(), "#f");
}

#[test]
fn search_params_of_a_url() {
    let u = JsUrl::new("/p?a=1&b=%C3%A9", None).ok().unwrap();
    let p = JsUrlSearchParams::from_query_string(&u.get_search());
    assert_eq!(p.entries(), vec![pair("a", "1"), pair("b", "é")]);
}

#[test]
fn text_codec() {
    assert_eq!(JsTextEncoder::new().encode("é"), vec![0xc3, 0xa9]);
    let d = JsTextDecoder::new();
    assert_eq!(d.decode(Some(&[0xc3, 0xa9])).unwrap(), "é");
    assert_eq!(d.decode(Some(&[0x61, 0xff, 0x62])).unwrap(), "a\u{fffd}b");
    assert_eq!(d.decode(None).unwrap_err().message(), "TextDecoder: invalid typed array");
    let s = "日本\u{1f600}\u{0}";
    assert_eq!(d.decode(Some(&JsTextEncoder::new().encode(s))).unwrap(), s);
}

#[test]
fn random_hex_has_the_right_length() {
    assert_eq!(random_hex(0), "");
    let a = random_hex(16);
    assert_eq!(a.len(), 32);
    assert!(a.chars().all(|c| c.is_ascii_hexdigit() && !c.is_ascii_uppercase()));
    assert_ne!(a, random_hex(16));
}

#[test]
fn uuid_of_given_bytes() {
    assert_eq!(uuid_from_bytes(vec![0u8; 16]), "00000000-0000-4000-8000-000000000000");
    assert_eq!(uuid_from_bytes(vec![0xff; 16]), "ffffffff-ffff-4fff-bfff-ffffffffffff");
    let bytes: Vec<u8> = (1..=16).collect();
    assert_eq!(uuid_from_bytes(bytes), "01020304-0506-4708-890a-0b0c0d0e0f10");
}

#[test]
fn random_uuids_are_version_four() {
    let u: Vec<char> = random_uuid().chars().collect();
    assert_eq!(u.len(), 36);
    for i in [8, 13, 18, 23] {
        assert_eq!(u[i], '-');
    }
    assert_eq!(u[14], '4');
    assert!(matches!(u[19], '8' | '9' | 'a' | 'b'));
    assert_ne!(random_uuid(), random_uuid());
}

#[test]
fn digests() {
    assert_eq!(
        subtle_digest_hex("SHA-256", ""),
        "e3b0c44298fc1c149afbf4c8996fb92427ae41e4649b934ca495991b7852b855"
    );
    assert_eq!(
        subtle_digest_hex("SHA-256", "616263"),
        "ba7816bf8f01cfea414140de5dae2223b00361a396177a9cb410ff61f20015ad"
    );
    assert_eq!(subtle_digest_hex("SHA-1", "616263"), subtle_digest_hex("SHA-256", "616263"));
}

#[test]
fn console_levels() {
    assert_eq!(log_line("[ERR]", "x"), (LogLevel::Error, "[JS] x".to_string()));
    assert_eq!(log_line("[WARN]", "x"), (LogLevel::Warn, "[JS] x".to_string()));
    assert_eq!(log_line("[INFO]", "x"), (LogLevel::Info, "[JS] x".to_string()));
    assert_eq!(log_line("[LOG]", ""), (LogLevel::Debug, "[JS] ".to_string()));
}
