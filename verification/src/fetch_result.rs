//! What a fetch made by a page gives back.

use crate::json::{json_escape, json_escaped, json_read, law_json_gives_back_what_was_written};
use crate::pairs::clone_pairs;
use crate::text::{bytes_of, pairs_view};
use vstd::prelude::*;
use vstd::slice::slice_to_vec;
use vstd::utf8::{
    decode_utf8, encode_utf8, encode_utf8_decode_utf8, encode_utf8_valid_utf8, valid_utf8,
};

verus! {

/// The result of a fetch, internal or external. The body is binary: it becomes
/// text only where it is handed to JavaScript.
#[derive(Debug)]
pub struct DispatchResult {
    /// The status code.
    pub status: u16,
    /// The header fields. A name may occur more than once.
    pub headers: Vec<(String, String)>,
    /// The body.
    pub body: Vec<u8>,
}

/// The result of a fetch as mathematical data.
pub struct DispatchView {
    /// The status code.
    pub status: u16,
    /// The header fields.
    pub headers: Seq<(Seq<char>, Seq<char>)>,
    /// The body.
    pub body: Seq<u8>,
}

impl View for DispatchResult {
    type V = DispatchView;

    open spec fn view(&self) -> DispatchView {
        DispatchView {
            status: self.status,
            headers: pairs_view(self.headers@),
            body: self.body@,
        }
    }
}

impl Clone for DispatchResult {
    fn clone(&self) -> (r: Self)
        ensures
            r@ == self@,
    {
        DispatchResult {
            status: self.status,
            headers: clone_pairs(&self.headers),
            body: slice_to_vec(self.body.as_slice()),
        }
    }
}

/// A JSON object with one member, `error`, that is a string.
pub open spec fn error_json(message: Seq<char>) -> Seq<char> {
    "{\"error\":\""@ + json_escaped(message) + "\"}"@
}

/// The message of a JSON object with one member, `error`, that is a string, and
/// with no space in it. `None` where a text is no such object.
pub open spec fn read_error_json(t: Seq<char>) -> Option<Seq<char>> {
    let (opening, closing) = ("{\"error\":\""@, "\"}"@);
    if t.len() < opening.len() + closing.len() || t.take(opening.len() as int) != opening || t.skip(
        t.len() - closing.len(),
    ) != closing {
        None
    } else {
        json_read(t.subrange(opening.len() as int, t.len() - closing.len()))
    }
}

/// An answer that reports an error: a JSON object with the message.
pub open spec fn error_result(status: u16, message: Seq<char>) -> DispatchView {
    DispatchView {
        status,
        headers: seq![("content-type"@, "application/json"@)],
        body: encode_utf8(error_json(message)),
    }
}

impl DispatchResult {
    /// An answer that reports an error: a JSON object with the message.
    pub fn error(status: u16, message: &str) -> (r: Self)
        ensures
            r@ == error_result(status, message@),
    {
        let mut text = "{\"error\":\"".to_string();
        text.append(json_escape(message).as_str());
        text.append("\"}");
        let mut headers: Vec<(String, String)> = Vec::new();
        headers.push(("content-type".to_string(), "application/json".to_string()));
        assert(pairs_view(headers@) =~= seq![("content-type"@, "application/json"@)]);
        DispatchResult { status, headers, body: bytes_of(text.as_str()) }
    }
}

/// An answer that reports an error is labelled as JSON, and its body is a JSON
/// object whose one member, `error`, is the message, whatever the message holds.
pub proof fn law_error_body_is_json(status: u16, message: Seq<char>)
    ensures
        error_result(status, message).status == status,
        error_result(status, message).headers == seq![("content-type"@, "application/json"@)],
        valid_utf8(error_result(status, message).body),
        read_error_json(decode_utf8(error_result(status, message).body)) == Some(message),
{
    let (opening, closing) = ("{\"error\":\""@, "\"}"@);
    let inner = json_escaped(message);
    let t = error_json(message);
    encode_utf8_valid_utf8(t);
    encode_utf8_decode_utf8(t);
    assert(t.take(opening.len() as int) =~= opening);
    assert(t.skip(t.len() - closing.len()) =~= closing);
    assert(t.subrange(opening.len() as int, t.len() - closing.len()) =~= inner);
    law_json_gives_back_what_was_written(message);
}

/// What can go wrong in a fetch, other than that the target refuses it.
#[derive(Debug, Clone, Copy, PartialEq, Eq, Structural)]
pub enum FetchFailure {
    /// A page fetches itself while it is being rendered.
    Recursive,
    /// The request could not be built.
    BadRequest,
    /// The router was not ready to take a request.
    NotReady,
    /// The router failed.
    DispatchFailed,
    /// The thread that ran the router panicked.
    ThreadPanicked,
    /// The body of the router's answer is too long.
    DispatchTooLarge,
    /// The address of the target may not be reached.
    Forbidden,
    /// The body of the answer is too long.
    TooLarge,
    /// The target could not be reached.
    Unreachable,
}

impl FetchFailure {
    /// The status code of the answer.
    pub open spec fn status_code(self) -> u16 {
        match self {
            FetchFailure::Recursive => 503,
            FetchFailure::Forbidden => 403,
            FetchFailure::DispatchTooLarge | FetchFailure::TooLarge | FetchFailure::Unreachable
                => 502,
            _ => 500,
        }
    }

    /// The message of the answer.
    pub open spec fn message(self) -> Seq<char> {
        match self {
            FetchFailure::Recursive => "recursive internal dispatch detected"@,
            FetchFailure::BadRequest => "failed to build dispatch request"@,
            FetchFailure::NotReady => "service not ready"@,
            FetchFailure::DispatchFailed => "internal dispatch failed"@,
            FetchFailure::ThreadPanicked => "actix dispatch thread panicked"@,
            FetchFailure::DispatchTooLarge =>
                "internal dispatch: response body exceeds size limit"@,
            FetchFailure::Forbidden => "SSRF: target address not allowed"@,
            FetchFailure::TooLarge => "response body exceeds size limit"@,
            FetchFailure::Unreachable => "external fetch failed"@,
        }
    }

    /// The answer that reports the failure.
    pub open spec fn answer(self) -> DispatchView {
        error_result(self.status_code(), self.message())
    }

    /// The answer that reports the failure to the page.
    pub fn result(self) -> (r: DispatchResult)
        ensures
            r@ == self.answer(),
    {
        match self {
            FetchFailure::Recursive => DispatchResult::error(
                503,
                "recursive internal dispatch detected",
            ),
            FetchFailure::BadRequest => DispatchResult::error(
                500,
                "failed to build dispatch request",
            ),
            FetchFailure::NotReady => DispatchResult::error(500, "service not ready"),
            FetchFailure::DispatchFailed => DispatchResult::error(500, "internal dispatch failed"),
            FetchFailure::ThreadPanicked => DispatchResult::error(
                500,
                "actix dispatch thread panicked",
            ),
            FetchFailure::DispatchTooLarge => DispatchResult::error(
                502,
                "internal dispatch: response body exceeds size limit",
            ),
            FetchFailure::Forbidden => DispatchResult::error(
                403,
                "SSRF: target address not allowed",
            ),
            FetchFailure::TooLarge => DispatchResult::error(
                502,
                "response body exceeds size limit",
            ),
            FetchFailure::Unreachable => DispatchResult::error(502, "external fetch failed"),
        }
    }
}

/// The body of an answer that reports an error is `{"error":"`, the message as JSON
/// writes it, and `"}`; nothing else.
pub proof fn law_error_text(status: u16, message: Seq<char>)
    ensures
        decode_utf8(error_result(status, message).body) == "{\"error\":\""@ + json_escaped(message)
            + "\"}"@,
{
    encode_utf8_decode_utf8(error_json(message));
}

/// The result of a fetch as mathematical data has its whole status, header fields
/// and body.
pub proof fn law_view_keeps_the_result(r: DispatchResult)
    ensures
        r@.status == r.status,
        r@.headers == pairs_view(r.headers@),
        r@.body == r.body@,
{
}

} // verus!
