//! Static files, served from the assets that are embedded in the program.

use crate::header_map::{
    field_values, fields_view, header_entries, header_text, header_value_text, is_header_text,
    list_fields, values_in,
};
use crate::pairs::{lemma_push_values, values_of};
use crate::text::{contains_str, holds_text, law_holds_text, pairs_view, str_eq};
use crate::url_parts::{
    fully_escaped, lemma_fully_escaped, lemma_no_escapes, optional_text, path_bytes, path_bytes_of,
};
use vstd::prelude::*;
use vstd::utf8::{
    decode_utf8, encode_utf8, encode_utf8_decode_utf8, encode_utf8_valid_utf8, valid_utf8,
};

verus! {

/// A static file that was found.
#[derive(Debug)]
pub struct StaticAsset {
    /// The MIME type.
    pub mime: String,
    /// The content, compressed where there is a content encoding.
    pub data: Vec<u8>,
    /// Whether the content never changes under its path.
    pub immutable: bool,
    /// The content encoding, `br` for Brotli.
    pub content_encoding: Option<String>,
}

/// A static file as mathematical data.
pub struct AssetView {
    /// The MIME type.
    pub mime: Seq<char>,
    /// The content.
    pub data: Seq<u8>,
    /// Whether the content never changes under its path.
    pub immutable: bool,
    /// The content encoding.
    pub content_encoding: Option<Seq<char>>,
}

impl View for StaticAsset {
    type V = AssetView;

    open spec fn view(&self) -> AssetView {
        AssetView {
            mime: self.mime@,
            data: self.data@,
            immutable: self.immutable,
            content_encoding: optional_text(self.content_encoding),
        }
    }
}

/// The name of the file that a path stands for, empty where it is no UTF-8.
pub open spec fn path_decoded(path: Seq<char>) -> Seq<char> {
    let bytes = path_bytes(encode_utf8(path));
    if valid_utf8(bytes) {
        decode_utf8(bytes)
    } else {
        seq![]
    }
}

/// Where the file of a path is looked for.
pub open spec fn asset_path(path: Seq<char>) -> Seq<char> {
    "client"@ + path_decoded(path)
}

/// Where the compressed file of a path is looked for.
pub open spec fn brotli_path(path: Seq<char>) -> Seq<char> {
    asset_path(path) + ".br"@
}

/// Whether every platform takes a path apart in the same way: it has no
/// backslash, which parts a path on some of them alone, and does not begin like a
/// path on a drive or on another machine.
pub open spec fn is_portable(path: Seq<char>) -> bool {
    &&& !path.contains('\\')
    &&& !(path.len() >= 2 && path[1] == ':')
    &&& !(path.len() >= 2 && path[0] == '/' && path[1] == '/')
}

/// The MIME type that `mime_guess` gives for a path.
pub uninterp spec fn guessed_mime(path: Seq<char>) -> Seq<char>;

/// `mime_guess::from_path` with `first_or_octet_stream`: the MIME type that goes
/// with the extension of a path. It is only named, and only for a path that
/// every platform takes apart in the same way; for any other it is not said
/// what comes.
#[verifier::external_body]
fn guess_mime(path: &str) -> (r: String)
    ensures
        is_portable(path@) ==> r@ == guessed_mime(path@),
{
    mime_guess::from_path(path).first_or_octet_stream().as_ref().to_string()
}

/// The file that was found at a path.
pub open spec fn found_asset(
    mime: Seq<char>,
    data: Seq<u8>,
    found_at: Seq<char>,
    compressed: bool,
) -> AssetView {
    AssetView {
        mime,
        data,
        immutable: holds_text(found_at, "/immutable/"@),
        content_encoding: if compressed {
            Some("br"@)
        } else {
            None
        },
    }
}

/// Decodes the escapes of a path. A path whose bytes are no UTF-8 becomes empty.
pub fn percent_decode(input: &str) -> (r: String)
    ensures
        r@ == path_decoded(input@),
{
    match String::from_utf8(path_bytes_of(input)) {
        Ok(text) => text,
        Err(_) => String::new(),
    }
}

/// The file that was found at a path.
pub fn make_asset(mime: String, data: Vec<u8>, found_at: &str, compressed: bool) -> (r: StaticAsset)
    ensures
        r@ == found_asset(mime@, data@, found_at@, compressed),
        r.mime@ == mime@,
        r.data@ == data@,
        r.immutable == holds_text(found_at@, "/immutable/"@),
{
    let content_encoding = if compressed {
        Some("br".to_string())
    } else {
        None
    };
    StaticAsset { mime, data, immutable: contains_str(found_at, "/immutable/"), content_encoding }
}

/// Whether a file is one that was found at a path with some content. Its MIME type
/// is not said where the path holds a backslash.
pub open spec fn is_found(
    asset: StaticAsset,
    data: Seq<u8>,
    path: Seq<char>,
    compressed: bool,
) -> bool {
    &&& asset@ == found_asset(
        asset.mime@,
        data,
        if compressed {
            brotli_path(path)
        } else {
            asset_path(path)
        },
        compressed,
    )
    &&& !path_decoded(path).contains('\\') ==> asset.mime@ == guessed_mime(asset_path(path))
}

/// Whether looking a path up in the assets can give a result.
pub open spec fn gives<G: Fn(&str) -> Option<Vec<u8>>>(
    get: G,
    path: Seq<char>,
    result: Option<Vec<u8>>,
) -> bool {
    exists|p: &str| p@ == path && #[trigger] call_ensures(get, (p,), result)
}

/// Only a backslash can make platforms take the path of an asset apart
/// differently.
proof fn lemma_asset_path_is_portable(path: Seq<char>)
    requires
        !path_decoded(path).contains('\\'),
    ensures
        is_portable(asset_path(path)),
{
    reveal_strlit("client");
    let d = path_decoded(path);
    assert forall|i: int| 0 <= i < asset_path(path).len() implies asset_path(path)[i] != '\\' by {
        if i >= 6 {
            assert(asset_path(path)[i] == d[i - 6]);
        }
    }
}

/// Looks up the file of a path in the assets. A client that takes Brotli gets
/// the compressed file, where there is one; otherwise the file itself is looked
/// for. The MIME type is that of the file itself in either case.
///
/// `get` finds a file of the assets by its path.
pub fn lookup_static_asset<G: Fn(&str) -> Option<Vec<u8>>>(
    path: &str,
    accepts_br: bool,
    get: G,
) -> (r: Option<StaticAsset>)
    requires
        forall|p: &str| #[trigger] call_requires(get, (p,)),
    ensures
        match r {
            Some(asset) => {
                ||| accepts_br && exists|data: Vec<u8>| #[trigger]
                    gives(get, brotli_path(path@), Some(data)) && is_found(
                        asset,
                        data@,
                        path@,
                        true,
                    )
                ||| (accepts_br ==> gives(get, brotli_path(path@), None)) && exists|data: Vec<u8>|
                    #[trigger]
                    gives(get, asset_path(path@), Some(data)) && is_found(
                        asset,
                        data@,
                        path@,
                        false,
                    )
            },
            None => (accepts_br ==> gives(get, brotli_path(path@), None)) && gives(
                get,
                asset_path(path@),
                None,
            ),
        },
{
    proof {
        if !path_decoded(path@).contains('\\') {
            lemma_asset_path_is_portable(path@);
        }
    }
    let mut plain_path = "client".to_string();
    plain_path.append(percent_decode(path).as_str());
    if accepts_br {
        let mut br_path = plain_path.clone();
        br_path.append(".br");
        match get(br_path.as_str()) {
            Some(data) => {
                let ghost found = data;
                assert(gives(get, brotli_path(path@), Some(found)));
                let mime = guess_mime(plain_path.as_str());
                return Some(make_asset(mime, data, br_path.as_str(), true));
            },
            None => {
                assert(gives(get, brotli_path(path@), None));
            },
        }
    }
    match get(plain_path.as_str()) {
        Some(data) => {
            let ghost found = data;
            assert(gives(get, asset_path(path@), Some(found)));
            let mime = guess_mime(plain_path.as_str());
            Some(make_asset(mime, data, plain_path.as_str(), false))
        },
        None => {
            assert(gives(get, asset_path(path@), None));
            None
        },
    }
}

/// The header fields of an answer that serves a static file.
pub open spec fn asset_fields(asset: AssetView) -> Seq<(Seq<char>, Seq<char>)> {
    seq![("content-type"@, asset.mime)] + (match asset.content_encoding {
        Some(encoding) => seq![("content-encoding"@, encoding)],
        None => seq![],
    }) + seq![("vary"@, "Accept-Encoding"@)] + (if asset.immutable {
        seq![("cache-control"@, "public, max-age=31536000, immutable"@)]
    } else {
        seq![]
    })
}

/// The header fields of an answer that serves a static file: the type, the
/// encoding where it is compressed, that the answer depends on the encodings the
/// client takes, and that it may be kept for a year where it never changes.
pub fn asset_headers(asset: &StaticAsset) -> (r: Vec<(String, String)>)
    ensures
        pairs_view(r@) == asset_fields(asset@),
{
    let mut out: Vec<(String, String)> = Vec::new();
    out.push(("content-type".to_string(), asset.mime.clone()));
    match &asset.content_encoding {
        Some(encoding) => {
            out.push(("content-encoding".to_string(), encoding.clone()));
        },
        None => {},
    }
    out.push(("vary".to_string(), "Accept-Encoding".to_string()));
    if asset.immutable {
        out.push(
            ("cache-control".to_string(), "public, max-age=31536000, immutable".to_string()),
        );
    }
    assert(pairs_view(out@) =~= asset_fields(asset@));
    out
}

/// Whether the values of `accept-encoding` take Brotli: the first one is text
/// and holds `br`.
pub open spec fn takes_brotli(values: Seq<Seq<u8>>) -> bool {
    values.len() > 0 && is_header_text(values[0]) && holds_text(header_text(values[0]), "br"@)
}

/// Whether the client that sent header fields takes Brotli.
pub fn accepts_brotli(fields: &Vec<(String, Vec<u8>)>) -> (r: bool)
    ensures
        r == takes_brotli(field_values(fields_view(fields@), "accept-encoding"@)),
{
    let ghost l = fields_view(fields@);
    let ghost name = "accept-encoding"@;
    let mut i: usize = 0;
    assert(l.take(0).len() == 0);
    while i < fields.len()
        invariant
            i <= fields@.len(),
            l == fields_view(fields@),
            name == "accept-encoding"@,
            field_values(l.take(i as int), name).len() == 0,
        decreases fields@.len() - i,
    {
        proof {
            assert(l.take(i + 1).drop_last() =~= l.take(i as int));
        }
        if str_eq(fields[i].0.as_str(), "accept-encoding") {
            proof {
                lemma_field_values_extend(l, name, i + 1);
                assert(field_values(l.take(i + 1), name)[0] == fields@[i as int].1@);
            }
            return match header_value_text(fields[i].1.as_slice()) {
                Some(text) => contains_str(text.as_str(), "br"),
                None => false,
            };
        }
        i = i + 1;
    }
    assert(l.take(i as int) =~= l);
    false
}

/// The values that the start of a list has for a name come first in the whole list.
proof fn lemma_field_values_extend(l: Seq<(Seq<char>, Seq<u8>)>, name: Seq<char>, n: int)
    requires
        0 <= n <= l.len(),
    ensures
        field_values(l.take(n), name).len() <= field_values(l, name).len(),
        forall|j: int|
            0 <= j < field_values(l.take(n), name).len() ==> field_values(l, name)[j]
                == field_values(l.take(n), name)[j],
    decreases l.len(),
{
    if n == l.len() {
        assert(l.take(n) =~= l);
    } else {
        lemma_field_values_extend(l.drop_last(), name, n);
        assert(l.drop_last().take(n) =~= l.take(n));
    }
}

/// Whether the client whose header fields a map holds takes Brotli.
pub fn accepts_brotli_of(m: &http::HeaderMap) -> (r: bool)
    ensures
        r == takes_brotli(values_in(header_entries(*m), "accept-encoding"@)),
{
    let fields = list_fields(m);
    assert(field_values(fields_view(fields@), "accept-encoding"@) == values_in(
        header_entries(*m),
        "accept-encoding"@,
    ));
    accepts_brotli(&fields)
}

/// A file name that is escaped in a path is found under its own name, whatever
/// characters it holds.
pub proof fn law_escaped_name_is_decoded(name: Seq<char>)
    ensures
        path_decoded(fully_escaped(encode_utf8(name))) == name,
{
    lemma_fully_escaped(encode_utf8(name));
    encode_utf8_valid_utf8(name);
    encode_utf8_decode_utf8(name);
}

/// A path without escapes is the name of its file.
pub proof fn law_plain_path_is_kept(path: Seq<char>)
    requires
        !encode_utf8(path).contains(37),
    ensures
        path_decoded(path) == path,
{
    lemma_no_escapes(encode_utf8(path));
    encode_utf8_valid_utf8(path);
    encode_utf8_decode_utf8(path);
}

/// The ending of a compressed file has no part in what its path holds.
proof fn lemma_ending_holds_nothing(path: Seq<char>)
    ensures
        holds_text(path + ".br"@, "/immutable/"@) <==> holds_text(path, "/immutable/"@),
{
    reveal_strlit("/immutable/");
    reveal_strlit(".br");
    let t = "/immutable/"@;
    let whole = path + ".br"@;
    if holds_text(whole, t) {
        let i = choose|i: int|
            0 <= i <= whole.len() - t.len() && #[trigger] whole.subrange(i, i + t.len()) == t;
        let last = i + t.len() - 1;
        assert(whole[last] == whole.subrange(i, i + t.len())[t.len() - 1]);
        assert(whole[last] == '/');
        assert(last < path.len());
        assert(path.subrange(i, i + t.len()) =~= t) by {
            assert(path.subrange(i, i + t.len()) =~= whole.subrange(i, i + t.len()));
        }
    }
    if holds_text(path, t) {
        let i = choose|i: int|
            0 <= i <= path.len() - t.len() && #[trigger] path.subrange(i, i + t.len()) == t;
        assert(whole.subrange(i, i + t.len()) =~= path.subrange(i, i + t.len()));
    }
}

/// A file that was found has the content that was found, is immutable exactly when
/// its path holds `/immutable/`, whether it is compressed or not, and says that it
/// is compressed exactly when it is.
pub proof fn law_found_file(asset: StaticAsset, data: Seq<u8>, path: Seq<char>, compressed: bool)
    requires
        is_found(asset, data, path, compressed),
    ensures
        asset.data@ == data,
        asset.immutable <==> holds_text("client"@ + path_decoded(path), "/immutable/"@),
        compressed ==> asset.content_encoding is Some && asset.content_encoding->0@ == "br"@,
        !compressed ==> asset.content_encoding is None,
        !path_decoded(path).contains('\\') ==> asset.mime@ == guessed_mime(
            "client"@ + path_decoded(path),
        ),
{
    lemma_ending_holds_nothing(asset_path(path));
    assert(asset@.content_encoding == optional_text(asset.content_encoding));
    assert(asset@.immutable == asset.immutable);
    assert(asset@.data == asset.data@);
}

/// The compressed and the plain form of a file are served alike but for their
/// content and its encoding: both may be kept, or neither.
pub proof fn law_forms_of_a_file_agree(
    plain: StaticAsset,
    data: Seq<u8>,
    compressed: StaticAsset,
    small: Seq<u8>,
    path: Seq<char>,
)
    requires
        is_found(plain, data, path, false),
        is_found(compressed, small, path, true),
    ensures
        plain.immutable == compressed.immutable,
        values_of(asset_fields(plain@), "cache-control"@) == values_of(
            asset_fields(compressed@),
            "cache-control"@,
        ),
{
    law_found_file(plain, data, path, false);
    law_found_file(compressed, small, path, true);
    law_asset_headers(plain@, "cache-control"@);
    law_asset_headers(compressed@, "cache-control"@);
}

/// A file is served with its type, with its encoding where it has one, with a note
/// that the answer depends on the encodings that a client takes, and with leave to
/// keep it for a year exactly when it is immutable. No other field is sent.
pub proof fn law_asset_headers(asset: AssetView, name: Seq<char>)
    ensures
        values_of(asset_fields(asset), "content-type"@) == seq![asset.mime],
        values_of(asset_fields(asset), "content-encoding"@) == (match asset.content_encoding {
            Some(encoding) => seq![encoding],
            None => seq![],
        }),
        values_of(asset_fields(asset), "vary"@) == seq!["Accept-Encoding"@],
        asset.immutable ==> values_of(asset_fields(asset), "cache-control"@) == seq![
            "public, max-age=31536000, immutable"@,
        ],
        !asset.immutable ==> values_of(asset_fields(asset), "cache-control"@) == Seq::<
            Seq<char>,
        >::empty(),
        name != "content-type"@ && name != "content-encoding"@ && name != "vary"@ && name
            != "cache-control"@ ==> values_of(asset_fields(asset), name) == Seq::<
            Seq<char>,
        >::empty(),
{
    lemma_asset_header(asset, "content-type"@);
    lemma_asset_header(asset, "content-encoding"@);
    lemma_asset_header(asset, "vary"@);
    lemma_asset_header(asset, "cache-control"@);
    lemma_asset_header(asset, name);
    reveal_strlit("content-type");
    reveal_strlit("content-encoding");
    reveal_strlit("vary");
    reveal_strlit("cache-control");
    assert("content-type"@.len() == 12 && "content-encoding"@.len() == 16 && "vary"@.len() == 4
        && "cache-control"@.len() == 13);
}

proof fn lemma_asset_header(asset: AssetView, name: Seq<char>)
    ensures
        values_of(asset_fields(asset), name) == (if name == "content-type"@ {
            seq![asset.mime]
        } else {
            seq![]
        }) + (if name == "content-encoding"@ && asset.content_encoding is Some {
            seq![asset.content_encoding->0]
        } else {
            seq![]
        }) + (if name == "vary"@ {
            seq!["Accept-Encoding"@]
        } else {
            seq![]
        }) + (if name == "cache-control"@ && asset.immutable {
            seq!["public, max-age=31536000, immutable"@]
        } else {
            seq![]
        }),
{
    let none = Seq::<(Seq<char>, Seq<char>)>::empty();
    let a = none.push(("content-type"@, asset.mime));
    let b = match asset.content_encoding {
        Some(encoding) => a.push(("content-encoding"@, encoding)),
        None => a,
    };
    let c = b.push(("vary"@, "Accept-Encoding"@));
    let d = if asset.immutable {
        c.push(("cache-control"@, "public, max-age=31536000, immutable"@))
    } else {
        c
    };
    assert(asset_fields(asset) =~= d);
    lemma_push_values(none, "content-type"@, asset.mime, name);
    if let Some(encoding) = asset.content_encoding {
        lemma_push_values(a, "content-encoding"@, encoding, name);
    }
    lemma_push_values(b, "vary"@, "Accept-Encoding"@, name);
    lemma_push_values(c, "cache-control"@, "public, max-age=31536000, immutable"@, name);
    assert(values_of(none, name) =~= seq![]);
    let w = (if name == "content-type"@ {
        seq![asset.mime]
    } else {
        seq![]
    });
    assert(values_of(a, name) =~= w);
    let x = w + (if name == "content-encoding"@ && asset.content_encoding is Some {
        seq![asset.content_encoding->0]
    } else {
        seq![]
    });
    assert(values_of(b, name) =~= x);
    let y = x + (if name == "vary"@ {
        seq!["Accept-Encoding"@]
    } else {
        seq![]
    });
    assert(values_of(c, name) =~= y);
    assert(values_of(d, name) =~= y + (if name == "cache-control"@ && asset.immutable {
        seq!["public, max-age=31536000, immutable"@]
    } else {
        seq![]
    }));
}

/// A path stands for the string that its bytes are the encoding of, once its
/// escapes are read; for no name at all where they are no UTF-8. Its file is looked
/// for under that name behind `client`, and its compressed file with `.br` added.
pub proof fn law_file_of_a_path(path: Seq<char>, name: Seq<char>)
    ensures
        path_bytes(encode_utf8(path)) == encode_utf8(name) ==> path_decoded(path) == name
            && asset_path(path) == "client"@ + name && brotli_path(path) == "client"@ + name
            + ".br"@,
        !valid_utf8(path_bytes(encode_utf8(path))) ==> path_decoded(path) == Seq::<char>::empty()
            && asset_path(path) == "client"@ && brotli_path(path) == "client.br"@,
{
    encode_utf8_valid_utf8(name);
    encode_utf8_decode_utf8(name);
    reveal_strlit("client");
    reveal_strlit("client.br");
    reveal_strlit(".br");
    assert("client"@ + Seq::<char>::empty() =~= "client"@);
    assert("client"@ + ".br"@ =~= "client.br"@);
}

/// Whether a client takes Brotli is told by the first value of `accept-encoding`
/// alone: it is text and holds `br`, whatever else it holds.
pub proof fn law_brotli_is_taken(
    before: Seq<char>,
    after: Seq<char>,
    value: Seq<u8>,
    rest: Seq<Seq<u8>>,
)
    ensures
        takes_brotli(seq![value] + rest) <==> takes_brotli(seq![value]),
        !takes_brotli(seq![]),
        takes_brotli(seq![value]) ==> is_header_text(value),
        is_header_text(value) && header_text(value) == before + "br"@ + after ==> takes_brotli(
            seq![value],
        ),
        takes_brotli(seq![value]) ==> exists|a: Seq<char>, b: Seq<char>|
            header_text(value) == #[trigger] (a + "br"@ + b),
{
    assert((seq![value] + rest)[0] == value);
    law_holds_text(header_text(value), "br"@, before, after);
}

/// What a lookup gives for a path was given for that very path.
pub proof fn law_lookup_is_of_the_path<G: Fn(&str) -> Option<Vec<u8>>>(
    get: G,
    path: Seq<char>,
    result: Option<Vec<u8>>,
)
    requires
        gives(get, path, result),
    ensures
        exists|p: &str| p@ == path && #[trigger] call_ensures(get, (p,), result),
{
}

} // verus!
