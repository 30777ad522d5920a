//! What Actix Web takes: targets, methods and header fields, by the rules of the
//! version of the `http` crate that it is built on.

use crate::dispatch::method_given;
use crate::fetch_result::{DispatchResult, FetchFailure};
use crate::header_map::{is_content_length, is_header_value, is_left_out, is_token_char, CacheState};
use crate::text::{ascii_lowercase, pair_view, pairs_view};
use vstd::prelude::*;
use vstd::utf8::encode_utf8;

verus! {

/// Whether Actix takes a string as the target of a request.
pub uninterp spec fn is_actix_uri(text: Seq<char>) -> bool;

/// `actix_web::http::Uri::from_str`: whether it succeeds depends on the string
/// alone; on which strings it does is only named.
#[verifier::external_body]
fn parses_as_actix_uri(text: &str) -> (r: bool)
    ensures
        r == is_actix_uri(text@),
{
    text.parse::<actix_web::http::Uri>().is_ok()
}

/// Whether Actix takes a string as a method: it is made of token characters, but
/// for `#`, `$`, `%`, `&` and `'`, and not empty.
pub open spec fn is_actix_method(s: Seq<char>) -> bool {
    s.len() > 0 && forall|i: int|
        0 <= i < s.len() ==> is_token_char(#[trigger] s[i]) && s[i] != '#' && s[i] != '$' && s[i]
            != '%' && s[i] != '&' && s[i] != '\''
}

/// `actix_web::http::Method::from_str`: it takes the strings of
/// [`is_actix_method`], and keeps them as they are.
#[verifier::external_body]
fn parse_actix_method(text: &str) -> (r: Option<String>)
    ensures
        r is Some <==> is_actix_method(text@),
        r matches Some(method) ==> method@ == text@,
{
    text.parse::<actix_web::http::Method>().ok().map(|method| method.as_str().to_string())
}

/// Whether Actix takes a string as the name of a header field: it is made of token
/// characters and double quotes, not empty and not too long.
pub open spec fn is_actix_name(s: Seq<char>) -> bool {
    0 < s.len() <= 65535 && forall|i: int|
        0 <= i < s.len() ==> is_token_char(#[trigger] s[i]) || s[i] == '"'
}

/// `actix_web::http::header::HeaderName::from_str`: it takes the strings of
/// [`is_actix_name`] and gives them in lowercase.
#[verifier::external_body]
fn parse_actix_name(text: &str) -> (r: Option<String>)
    ensures
        r is Some <==> is_actix_name(text@),
        r matches Some(name) ==> name@ == ascii_lowercase(text@),
{
    text.parse::<actix_web::http::header::HeaderName>().ok().map(|name| name.as_str().to_string())
}

/// `actix_web::http::header::HeaderValue::from_str`: it takes the strings whose
/// bytes are a header value.
#[verifier::external_body]
fn parses_as_actix_value(text: &str) -> (r: bool)
    ensures
        r == is_header_value(encode_utf8(text@)),
{
    text.parse::<actix_web::http::header::HeaderValue>().is_ok()
}

/// Whether Actix takes a pair of strings as a header field.
pub open spec fn is_actix_field(p: (Seq<char>, Seq<char>)) -> bool {
    is_actix_name(p.0) && is_header_value(encode_utf8(p.1))
}

/// The header fields among some pairs, in order, with the names in lowercase. The
/// length of the body is left out, unless it is to be kept.
pub open spec fn actix_fields(l: Seq<(Seq<char>, Seq<char>)>, keep_length: bool) -> Seq<
    (Seq<char>, Seq<char>),
>
    decreases l.len(),
{
    if l.len() == 0 {
        seq![]
    } else {
        let before = actix_fields(l.drop_last(), keep_length);
        let p = l.last();
        if (keep_length || !is_content_length(p.0)) && is_actix_field(p) {
            before.push((ascii_lowercase(p.0), p.1))
        } else {
            before
        }
    }
}

/// The header fields among some pairs, in order, with the names in lowercase. The
/// length of the body is left out, unless it is to be kept.
pub fn actix_fields_of(pairs: &[(String, String)], keep_length: bool) -> (r: Vec<(String, String)>)
    ensures
        pairs_view(r@) == actix_fields(pairs_view(pairs@), keep_length),
{
    let ghost l = pairs_view(pairs@);
    let mut out: Vec<(String, String)> = Vec::new();
    let mut i: usize = 0;
    assert(l.take(0).len() == 0);
    assert(pairs_view(out@) =~= seq![]);
    while i < pairs.len()
        invariant
            i <= pairs@.len(),
            l == pairs_view(pairs@),
            pairs_view(out@) == actix_fields(l.take(i as int), keep_length),
        decreases pairs@.len() - i,
    {
        let ghost before = out@;
        proof {
            assert(l.take(i + 1).drop_last() =~= l.take(i as int));
            assert(l.take(i + 1).last() == pair_view(pairs@[i as int]));
        }
        if keep_length || !is_left_out(pairs[i].0.as_str()) {
            match parse_actix_name(pairs[i].0.as_str()) {
                Some(name) => {
                    if parses_as_actix_value(pairs[i].1.as_str()) {
                        let ghost lower = name@;
                        out.push((name, pairs[i].1.clone()));
                        assert(pairs_view(out@) =~= pairs_view(before).push(
                            (lower, pairs@[i as int].1@),
                        ));
                    }
                },
                None => {},
            }
        }
        i = i + 1;
    }
    assert(l.take(i as int) =~= l);
    out
}

/// A request that a page makes of an Actix application.
#[derive(Debug)]
pub struct ActixRequest {
    /// The method.
    pub method: String,
    /// The header fields, to be inserted in order: of two with the same name the
    /// later one stays.
    pub headers: Vec<(String, String)>,
}

/// What is handed to an Actix application for a fetch. The thread of a fetch would
/// panic on a path that is no target, so such a path is answered as that.
pub fn begin_actix_dispatch(method: &str, path: &str, headers: &[(String, String)]) -> (r: Result<
    ActixRequest,
    DispatchResult,
>)
    ensures
        match r {
            Ok(request) => {
                &&& is_actix_uri(path@)
                &&& request.method@ == method_given(method@, is_actix_method(method@))
                &&& pairs_view(request.headers@) == actix_fields(pairs_view(headers@), true)
            },
            Err(answer) => !is_actix_uri(path@) && answer@
                == FetchFailure::ThreadPanicked.answer(),
        },
{
    if !parses_as_actix_uri(path) {
        return Err(FetchFailure::ThreadPanicked.result());
    }
    let method = match parse_actix_method(method) {
        Some(parsed) => parsed,
        None => "GET".to_string(),
    };
    Ok(ActixRequest { method, headers: actix_fields_of(headers, true) })
}

/// The header fields of an answer with a page, to be inserted in order: those of
/// the page but for the length of the body, and whether it came from the cache.
pub open spec fn actix_answer_fields(
    l: Seq<(Seq<char>, Seq<char>)>,
    state: Option<CacheState>,
) -> Seq<(Seq<char>, Seq<char>)> {
    match state {
        Some(state) => actix_fields(l, false).push(("x-ssr-cache"@, state.word())),
        None => actix_fields(l, false),
    }
}

/// The header fields of an answer with a page, to be inserted in order.
pub fn actix_page_fields(pairs: &[(String, String)], state: Option<CacheState>) -> (r: Vec<
    (String, String),
>)
    ensures
        pairs_view(r@) == actix_answer_fields(pairs_view(pairs@), state),
{
    let mut out = actix_fields_of(pairs, false);
    match state {
        Some(state) => {
            let ghost before = out@;
            out.push(("x-ssr-cache".to_string(), state.text().to_string()));
            assert(pairs_view(out@) =~= pairs_view(before).push(("x-ssr-cache"@, state.word())));
        },
        None => {},
    }
    out
}

proof fn lemma_no_length(l: Seq<(Seq<char>, Seq<char>)>, i: int)
    requires
        0 <= i < actix_fields(l, false).len(),
    ensures
        actix_fields(l, false)[i].0 != "content-length"@,
    decreases l.len(),
{
    reveal_strlit("content-length");
    assert(ascii_lowercase("content-length"@) =~= "content-length"@);
    if i < actix_fields(l.drop_last(), false).len() {
        lemma_no_length(l.drop_last(), i);
    }
}

/// The length of the body that a page reports never reaches an answer, and what
/// the answer says of the cache comes last, where nothing of the page can
/// replace it.
pub proof fn law_actix_answers(l: Seq<(Seq<char>, Seq<char>)>, state: CacheState, i: int)
    ensures
        actix_answer_fields(l, Some(state)).last() == ("x-ssr-cache"@, state.word()),
        0 <= i < actix_answer_fields(l, Some(state)).len() ==> actix_answer_fields(
            l,
            Some(state),
        )[i].0 != "content-length"@,
        0 <= i < actix_answer_fields(l, None).len() ==> actix_answer_fields(l, None)[i].0
            != "content-length"@,
{
    reveal_strlit("content-length");
    reveal_strlit("x-ssr-cache");
    assert("content-length"@.len() != "x-ssr-cache"@.len());
    if 0 <= i < actix_fields(l, false).len() {
        lemma_no_length(l, i);
    }
}

/// The fields that Actix is given are the pairs that it takes, in order, with the
/// names in lowercase and the values as they are; the length of the body is left
/// out, unless it is to be kept.
pub proof fn law_actix_fields(l: Seq<(Seq<char>, Seq<char>)>, keep_length: bool)
    ensures
        actix_fields(l, keep_length) == l.filter(
            |p: (Seq<char>, Seq<char>)|
                is_actix_name(p.0) && is_header_value(encode_utf8(p.1)) && (keep_length
                    || ascii_lowercase(p.0) != "content-length"@),
        ).map_values(|p: (Seq<char>, Seq<char>)| (ascii_lowercase(p.0), p.1)),
    decreases l.len(),
{
    reveal(Seq::filter);
    reveal_strlit("content-length");
    assert(ascii_lowercase("content-length"@) =~= "content-length"@);
    let f = |p: (Seq<char>, Seq<char>)|
        is_actix_name(p.0) && is_header_value(encode_utf8(p.1)) && (keep_length || ascii_lowercase(
            p.0,
        ) != "content-length"@);
    let g = |p: (Seq<char>, Seq<char>)| (ascii_lowercase(p.0), p.1);
    if l.len() > 0 {
        law_actix_fields(l.drop_last(), keep_length);
    }
    assert(actix_fields(l, keep_length) =~= l.filter(f).map_values(g));
}

/// An answer with a page has the fields of the page, and behind them whether it
/// came from the cache; one that reports a failure says nothing of the cache.
pub proof fn law_actix_answer_fields(l: Seq<(Seq<char>, Seq<char>)>)
    ensures
        actix_answer_fields(l, None) == actix_fields(l, false),
        actix_answer_fields(l, Some(CacheState::Hit)) == actix_fields(l, false).push(
            ("x-ssr-cache"@, "HIT"@),
        ),
        actix_answer_fields(l, Some(CacheState::Miss)) == actix_fields(l, false).push(
            ("x-ssr-cache"@, "MISS"@),
        ),
{
}

/// A method for Actix is made of letters, digits and ten marks, and a header name of
/// the characters that other header names are made of and double quotes.
pub proof fn law_actix_tokens(s: Seq<char>)
    ensures
        is_actix_method(s) <==> s.len() > 0 && forall|i: int|
            0 <= i < s.len() ==> is_token_char(#[trigger] s[i]) && !"#$%&'"@.contains(s[i]),
        is_actix_name(s) <==> 0 < s.len() <= 65535 && forall|i: int|
            0 <= i < s.len() ==> is_token_char(#[trigger] s[i]) || s[i] == '"',
{
    reveal_strlit("#$%&'");
    let marks = "#$%&'"@;
    assert(marks =~= seq!['#', '$', '%', '&', '\'']);
    assert forall|c: char| #[trigger] marks.contains(c) <==> c == '#' || c == '$' || c == '%' || c
        == '&' || c == '\'' by {
        assert(marks[0] == '#' && marks[1] == '$' && marks[2] == '%' && marks[3] == '&' && marks[4]
            == '\'');
    }
}

} // verus!
