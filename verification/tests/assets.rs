use slate::header_map::insert_all;
use slate::static_files::{accepts_brotli, accepts_brotli_of, asset_headers, make_asset, percent_decode};
use slate::{lookup_static_asset, StaticAsset};

fn pair(a: &str, b: &str) -> (String, String) {
    (a.to_string(), b.to_string())
}

fn file(path: &str) -> Option<Vec<u8>> {
    match path {
        "client/app.js" => Some(b"plain".to_vec()),
        "client/app.js.br" => Some(b"small".to_vec()),
        "client/only.css" => Some(b"css".to_vec()),
        "client/a b.html" => Some(b"space".to_vec()),
        "client/_app/immutable/x.js" => Some(b"hash".to_vec()),
        "client/_app/immutable/x.js.br" => Some(b"hash-br".to_vec()),
        "client/a:b.css" => Some(b"colon".to_vec()),
        "client:c.js.br" => Some(b"prefix".to_vec()),
        "client" => Some(b"root".to_vec()),
        _ => None,
    }
}

fn get(path: &str, accepts_br: bool) -> Option<StaticAsset> {
    lookup_static_asset(path, accepts_br, file)
}

#[test]
fn files_with_a_colon() {
    let a = get("/a:b.css", true).unwrap();
    assert_eq!(a.data, b"colon".to_vec());
    assert_eq!(a.mime, "text/css");
    assert_eq!(get("/a%3Ab.css", false).unwrap().mime, "text/css");
    let b = get(":c.js", true).unwrap();
    assert_eq!(b.data, b"prefix".to_vec());
    assert_eq!(b.mime, "text/javascript");
    assert_eq!(b.content_encoding.as_deref(), Some("br"));
}

#[test]
fn plain_files() {
    let a = get("/app.js", false).unwrap();
    assert_eq!(a.data, b"plain".to_vec());
    assert_eq!(a.mime, "text/javascript");
    assert_eq!(a.content_encoding, None);
    assert!(!a.immutable);
    assert!(get("/missing.js", false).is_none());
    assert!(get("/missing.js", true).is_none());
}

#[test]
fn compressed_files_come_first() {
    let a = get("/app.js", true).unwrap();
    assert_eq!(a.data, b"small".to_vec());
    assert_eq!(a.mime, "text/javascript");
    assert_eq!(a.content_encoding, Some("br".to_string()));
    let a = get("/only.css", true).unwrap();
    assert_eq!(a.data, b"css".to_vec());
    assert_eq!(a.mime, "text/css");
    assert_eq!(a.content_encoding, None);
}

#[test]
fn escaped_paths() {
    let a = get("/a%20b.html", false).unwrap();
    assert_eq!(a.data, b"space".to_vec());
    assert_eq!(a.mime, "text/html");
    assert_eq!(percent_decode("/a%20b%C3%A9"), "/a bé");
    assert_eq!(percent_decode("100%"), "100%");
    assert_eq!(percent_decode("%2"), "%2");
    assert_eq!(percent_decode("%zz%41"), "%zzA");
    assert_eq!(percent_decode("%41"), "A");
    assert_eq!(percent_decode("a+b"), "a+b");
    assert_eq!(percent_decode("%ff"), "");
}

#[test]
fn a_path_that_is_no_text_is_the_root() {
    assert_eq!(get("/%ff", false).unwrap().data, b"root".to_vec());
    assert_eq!(get("/%ff", false).unwrap().mime, "application/octet-stream");
}

#[test]
fn immutable_files() {
    let a = get("/_app/immutable/x.js", false).unwrap();
    assert!(a.immutable);
    let a = get("/_app/immutable/x.js", true).unwrap();
    assert!(a.immutable);
    assert_eq!(a.data, b"hash-br".to_vec());
    let a = make_asset("m".to_string(), vec![1], "client/immutable.js", false);
    assert!(!a.immutable);
    assert_eq!(a.content_encoding, None);
}

#[test]
fn header_fields_of_assets() {
    let a = get("/_app/immutable/x.js", true).unwrap();
    assert_eq!(
        asset_headers(&a),
        vec![
            pair("content-type", "text/javascript"),
            pair("content-encoding", "br"),
            pair("vary", "Accept-Encoding"),
            pair("cache-control", "public, max-age=31536000, immutable"),
        ]
    );
    let a = get("/only.css", false).unwrap();
    assert_eq!(
        asset_headers(&a),
        vec![pair("content-type", "text/css"), pair("vary", "Accept-Encoding")]
    );
    let mut map = http::HeaderMap::new();
    assert!(insert_all(&mut map, &asset_headers(&a)));
    assert_eq!(map.get("content-type").unwrap(), "text/css");
}

#[test]
fn clients_that_take_brotli() {
    let field = |v: &[u8]| vec![("accept-encoding".to_string(), v.to_vec())];
    assert!(accepts_brotli(&field(b"gzip, deflate, br")));
    assert!(!accepts_brotli(&field(b"gzip, deflate")));
    assert!(!accepts_brotli(&field(b"br\xff")));
    assert!(!accepts_brotli(&vec![]));
    let mut two = field(b"gzip");
    two.extend(field(b"br"));
    assert!(!accepts_brotli(&two));
    let mut map = http::HeaderMap::new();
    assert!(!accepts_brotli_of(&map));
    map.insert("accept-encoding", "br".parse().unwrap());
    assert!(accepts_brotli_of(&map));
}
