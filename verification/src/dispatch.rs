//! Fetches of relative paths, which the web framework's own router answers.

use crate::header_map::{
    fields_for, has_room, header_entries, is_token, law_appended_values, law_few_pairs_have_room,
    law_inserted_values, no_entries, outgoing_headers, repeated_headers, values_in, with_appended,
    with_inserted, SAFE_HEADER_NAMES,
};
use crate::text::pairs_view;
use crate::fetch_result::{DispatchResult, DispatchView, FetchFailure};
use vstd::prelude::*;
use vstd::utf8::encode_utf8;

verus! {

/// How long the body of a request, or of a router's answer, may be: 10 MB.
pub const MAX_BODY_SIZE: usize = 10 * 1024 * 1024;

/// `http::Method::from_str`: it takes the strings that are made of token
/// characters alone, and keeps them as they are.
#[verifier::external_body]
fn parse_method(text: &str) -> (r: Option<String>)
    ensures
        r is Some <==> is_token(text@),
        r matches Some(method) ==> method@ == text@,
{
    text.parse::<http::Method>().ok().map(|method| method.as_str().to_string())
}

/// Whether the `http` crate takes a string as the target of a request.
pub uninterp spec fn is_uri(text: Seq<char>) -> bool;

/// `http::Uri::from_str`: whether it succeeds depends on the string alone; on
/// which strings it does is only named.
#[verifier::external_body]
fn parses_as_uri(text: &str) -> (r: bool)
    ensures
        r == is_uri(text@),
{
    text.parse::<http::Uri>().is_ok()
}

/// The method of a request: the one asked for where it is accepted, or `GET`.
pub open spec fn method_given(method: Seq<char>, accepted: bool) -> Seq<char> {
    if accepted {
        method
    } else {
        "GET"@
    }
}

/// The method of a request: the one asked for, or `GET` where that is no method.
pub open spec fn method_used(method: Seq<char>) -> Seq<char> {
    method_given(method, is_token(method))
}

/// The method of a request: the one asked for, or `GET` where that is no method.
pub fn method_or_get(method: &str) -> (r: String)
    ensures
        r@ == method_used(method@),
{
    match parse_method(method) {
        Some(parsed) => parsed,
        None => "GET".to_string(),
    }
}

/// The target of a request: the path asked for where it is accepted, or the root.
pub open spec fn target_used(path: Seq<char>, accepted: bool) -> Seq<char> {
    if accepted {
        path
    } else {
        "/"@
    }
}

/// The target of a request: the path asked for where it is accepted, or the root.
pub fn target_or_root(path: &str, accepted: bool) -> (r: String)
    ensures
        r@ == target_used(path@, accepted),
{
    if accepted {
        path.to_string()
    } else {
        "/".to_string()
    }
}

/// A request that a page makes.
pub struct OutgoingRequest {
    /// The method.
    pub method: String,
    /// The header fields, unless there are too many for a map.
    pub headers: Option<http::HeaderMap>,
}

/// The request for a method and header fields.
pub open spec fn is_request_for(
    request: OutgoingRequest,
    method: Seq<char>,
    headers: Seq<(Seq<char>, Seq<char>)>,
) -> bool {
    &&& request.method@ == method_used(method)
    &&& request.headers matches Some(m) ==> header_entries(m) == with_inserted(
        no_entries(),
        headers,
    )
    &&& has_room(with_inserted(no_entries(), headers)) ==> request.headers is Some
}

/// The request for a method and header fields.
pub fn outgoing_request(method: &str, headers: &[(String, String)]) -> (r: OutgoingRequest)
    ensures
        is_request_for(r, method@, pairs_view(headers@)),
{
    OutgoingRequest { method: method_or_get(method), headers: outgoing_headers(headers) }
}

/// The request for a method and header fields, each of which is kept though its
/// name may occur more than once.
pub open spec fn is_repeating_request_for(
    request: OutgoingRequest,
    method: Seq<char>,
    headers: Seq<(Seq<char>, Seq<char>)>,
) -> bool {
    &&& request.method@ == method_used(method)
    &&& request.headers matches Some(m) ==> header_entries(m) == with_appended(
        no_entries(),
        headers,
        true,
    )
    &&& has_room(with_appended(no_entries(), headers, true)) ==> request.headers is Some
}

/// The request for a method and header fields, each of which is kept though its
/// name may occur more than once.
pub fn repeating_request(method: &str, headers: &[(String, String)]) -> (r: OutgoingRequest)
    ensures
        is_repeating_request_for(r, method@, pairs_view(headers@)),
{
    OutgoingRequest { method: method_or_get(method), headers: repeated_headers(headers) }
}

/// What is handed to the router for a fetch: the request and its target.
pub fn begin_dispatch(method: &str, path: &str, headers: &[(String, String)]) -> (r: (
    OutgoingRequest,
    String,
))
    ensures
        is_request_for(r.0, method@, pairs_view(headers@)),
        r.1@ == target_used(path@, is_uri(path@)),
        is_uri(path@) ==> r.1@ == path@,
        !is_uri(path@) ==> r.1@ == "/"@,
{
    let target = target_or_root(path, parses_as_uri(path));
    (outgoing_request(method, headers), target)
}

/// What is handed for a fetch to a router that takes every header field, though
/// its name may occur more than once. A path that is no target, or header fields
/// that do not fit in a map, are answered with an error instead.
pub fn begin_repeating_dispatch(method: &str, path: &str, headers: &[(String, String)]) -> (r:
    Result<OutgoingRequest, DispatchResult>)
    ensures
        match r {
            Ok(request) => is_uri(path@) && request.headers is Some && is_repeating_request_for(
                request,
                method@,
                pairs_view(headers@),
            ),
            Err(answer) => answer@ == FetchFailure::BadRequest.answer() && (is_uri(path@)
                ==> headers@.len() > SAFE_HEADER_NAMES && !has_room(
                with_appended(no_entries(), pairs_view(headers@), true),
            )),
        },
{
    let request = repeating_request(method, headers);
    if parses_as_uri(path) && request.headers.is_some() {
        Ok(request)
    } else {
        proof {
            if headers@.len() <= SAFE_HEADER_NAMES {
                law_few_pairs_have_room(no_entries(), pairs_view(headers@), true);
            }
        }
        Err(FetchFailure::BadRequest.result())
    }
}

/// The body of a router's answer.
pub enum ReplyBody {
    /// In one piece.
    Once(Vec<u8>),
    /// In several pieces.
    Chunks(Vec<Vec<u8>>),
    /// From a stream: what was read, or nothing where reading failed.
    Collected(Option<Vec<u8>>),
}

/// Byte strings, one after the other.
pub open spec fn concatenated(chunks: Seq<Vec<u8>>) -> Seq<u8>
    decreases chunks.len(),
{
    if chunks.len() == 0 {
        seq![]
    } else {
        concatenated(chunks.drop_last()) + chunks.last()@
    }
}

impl ReplyBody {
    /// The bytes of the body, none where they could not be read.
    pub open spec fn bytes(self) -> Seq<u8> {
        match self {
            ReplyBody::Once(bytes) => bytes@,
            ReplyBody::Chunks(chunks) => concatenated(chunks@),
            ReplyBody::Collected(Some(bytes)) => bytes@,
            ReplyBody::Collected(None) => seq![],
        }
    }
}

/// The bytes of a router's answer. One that is longer than [`MAX_BODY_SIZE`] is
/// answered with an error instead, whichever form it came in.
pub fn read_res_body(body: ReplyBody) -> (r: Result<Vec<u8>, DispatchResult>)
    ensures
        match r {
            Ok(bytes) => body.bytes().len() <= MAX_BODY_SIZE && bytes@ == body.bytes(),
            Err(answer) => body.bytes().len() > MAX_BODY_SIZE && answer@
                == FetchFailure::DispatchTooLarge.answer(),
        },
{
    let bytes = match body {
        ReplyBody::Once(bytes) => bytes,
        ReplyBody::Chunks(chunks) => {
            let mut out: Vec<u8> = Vec::new();
            let mut i: usize = 0;
            assert(chunks@.take(0).len() == 0);
            while i < chunks.len()
                invariant
                    i <= chunks@.len(),
                    out@ == concatenated(chunks@.take(i as int)),
                decreases chunks@.len() - i,
            {
                let mut chunk = vstd::slice::slice_to_vec(chunks[i].as_slice());
                out.append(&mut chunk);
                proof {
                    assert(chunks@.take(i + 1).drop_last() =~= chunks@.take(i as int));
                }
                i = i + 1;
            }
            assert(chunks@.take(i as int) =~= chunks@);
            out
        },
        ReplyBody::Collected(Some(bytes)) => bytes,
        ReplyBody::Collected(None) => Vec::new(),
    };
    if bytes.len() > MAX_BODY_SIZE {
        Err(FetchFailure::DispatchTooLarge.result())
    } else {
        Ok(bytes)
    }
}

/// What a page gets of a router's answer: its status, or 200 where it has none,
/// its header fields, and its body, empty where it could not be read.
pub fn finish_dispatch(
    status: Option<u16>,
    headers: Vec<(String, String)>,
    body: Option<Vec<u8>>,
) -> (r: DispatchResult)
    ensures
        r@ == (DispatchView {
            status: match status {
                Some(n) => n,
                None => 200,
            },
            headers: pairs_view(headers@),
            body: match body {
                Some(bytes) => bytes@,
                None => seq![],
            },
        }),
{
    let code: u16 = match status {
        Some(n) => n,
        None => 200,
    };
    let bytes = match body {
        Some(bytes) => bytes,
        None => Vec::new(),
    };
    DispatchResult { status: code, headers, body: bytes }
}

/// A request has the method that was asked for, or `GET` where that is none, and
/// for each name the value of the last of its header fields.
pub proof fn law_request_is_as_asked(
    request: OutgoingRequest,
    method: Seq<char>,
    headers: Seq<(Seq<char>, Seq<char>)>,
    name: Seq<char>,
)
    requires
        is_request_for(request, method, headers),
    ensures
        is_token(method) ==> request.method@ == method,
        !is_token(method) ==> request.method@ == "GET"@,
        request.headers matches Some(m) ==> {
            let fields = fields_for(headers, name);
            &&& fields.len() == 0 ==> values_in(header_entries(m), name).len() == 0
            &&& fields.len() > 0 ==> values_in(header_entries(m), name) == seq![
                encode_utf8(fields.last().1),
            ]
        },
        headers.len() <= 6553 ==> request.headers is Some,
{
    law_inserted_values(no_entries(), headers, name);
    if headers.len() <= 6553 {
        law_few_pairs_have_room(no_entries(), headers, true);
    }
}

/// A request whose header fields may be repeated has the method that was asked for,
/// or `GET` where that is none, and for each name the values of all its fields.
pub proof fn law_repeating_request_is_as_asked(
    request: OutgoingRequest,
    method: Seq<char>,
    headers: Seq<(Seq<char>, Seq<char>)>,
    name: Seq<char>,
)
    requires
        is_repeating_request_for(request, method, headers),
    ensures
        is_token(method) ==> request.method@ == method,
        !is_token(method) ==> request.method@ == "GET"@,
        request.headers matches Some(m) ==> values_in(header_entries(m), name) == fields_for(
            headers,
            name,
        ).map_values(|p: (Seq<char>, Seq<char>)| encode_utf8(p.1)),
        headers.len() <= 6553 ==> request.headers is Some,
{
    law_appended_values(no_entries(), headers, true, name);
    let g = |p: (Seq<char>, Seq<char>)| encode_utf8(p.1);
    assert(values_in(no_entries(), name) + fields_for(headers, name).map_values(g) =~= fields_for(
        headers,
        name,
    ).map_values(g));
    if headers.len() <= 6553 {
        law_few_pairs_have_room(no_entries(), headers, true);
    }
}

/// A fetch goes to the very target that was asked for, its query and all, or to the
/// root where that is no target; and with the very method, or `GET` where that is
/// none.
pub proof fn law_target_and_method_are_kept(text: Seq<char>)
    ensures
        target_used(text, true) == text,
        target_used(text, false) == "/"@,
        method_given(text, true) == text,
        method_given(text, false) == "GET"@,
{
}

/// The bytes of an answer are all that came, in order, in however many pieces; none
/// where they could not be read.
pub proof fn law_reply_bytes(a: Seq<Vec<u8>>, b: Seq<Vec<u8>>, piece: Vec<u8>, pieces: Vec<Vec<u8>>)
    ensures
        concatenated(seq![]) == Seq::<u8>::empty(),
        concatenated(seq![piece]) == piece@,
        concatenated(a + b) == concatenated(a) + concatenated(b),
        ReplyBody::Once(piece).bytes() == piece@,
        ReplyBody::Chunks(pieces).bytes() == concatenated(pieces@),
        ReplyBody::Collected(Some(piece)).bytes() == piece@,
        ReplyBody::Collected(None).bytes() == Seq::<u8>::empty(),
    decreases b.len(),
{
    let one = seq![piece];
    assert(one.drop_last().len() == 0);
    assert(concatenated(one.drop_last()) =~= seq![]);
    assert(concatenated(one) =~= piece@);
    if b.len() == 0 {
        assert(a + b =~= a);
        assert(concatenated(a) + concatenated(b) =~= concatenated(a));
    } else {
        law_reply_bytes(a, b.drop_last(), piece, pieces);
        assert((a + b).drop_last() =~= a + b.drop_last());
        assert((a + b).last() == b.last());
        assert(concatenated(a + b) =~= concatenated(a) + concatenated(b));
    }
}

/// A body may be as long as ten times 1024 times 1024 bytes, and no longer.
pub proof fn law_size_limit(bytes: Seq<u8>)
    ensures
        bytes.len() <= MAX_BODY_SIZE <==> bytes.len() <= 10_485_760,
{
}

} // verus!
