//! Rendering a page: what is asked of the JavaScript side, what comes back, and
//! what a page may fetch while it is being rendered.

use crate::pairs::{clone_pairs, lemma_push_values, values_of};
use crate::text::{
    chars_of, decimal, decimal_of, decode_lossy, lemma_encode_utf8_injective, lossy_text,
    pairs_view, string_of,
};
use crate::hex::lemma_upper_digit;
use crate::url_parts::{
    fully_escaped, is_same_path, lemma_fully_escaped, lemma_no_escapes, path_bytes, same_path,
};
use crate::fetch_result::{DispatchResult, FetchFailure};
use std::collections::HashMap;
use vstd::prelude::*;
use vstd::utf8::{
    decode_utf8, encode_scalar, encode_utf8, is_ascii_chars_encode_utf8, valid_utf8,
};

verus! {

/// A request for a page.
#[derive(Debug, Clone)]
pub struct SsrRequest {
    /// The method.
    pub method: String,
    /// The target, with its query.
    pub url: String,
    /// The header fields.
    pub headers: HashMap<String, String>,
    /// The body.
    pub body: Option<String>,
    /// The address of the client.
    pub remote_addr: String,
}

/// A rendered page.
#[derive(Debug)]
pub struct SsrResponse {
    /// The status code.
    pub status: u16,
    /// The header fields. A name may occur more than once.
    pub headers: Vec<(String, String)>,
    /// The page.
    pub body: String,
    /// Whether the page fetched anything while it was rendered. Such a page is
    /// not cached.
    pub fetched: bool,
}

/// A rendered page as mathematical data.
pub struct ResponseView {
    /// The status code.
    pub status: u16,
    /// The header fields.
    pub headers: Seq<(Seq<char>, Seq<char>)>,
    /// The page.
    pub body: Seq<char>,
    /// Whether the page fetched anything.
    pub fetched: bool,
}

impl View for SsrResponse {
    type V = ResponseView;

    open spec fn view(&self) -> ResponseView {
        ResponseView {
            status: self.status,
            headers: pairs_view(self.headers@),
            body: self.body@,
            fetched: self.fetched,
        }
    }
}

impl Clone for SsrResponse {
    fn clone(&self) -> (r: Self)
        ensures
            r@ == self@,
    {
        SsrResponse {
            status: self.status,
            headers: clone_pairs(&self.headers),
            body: self.body.clone(),
            fetched: self.fetched,
        }
    }
}

/// The properties of a request as `__render` gets it, but for its header fields.
pub open spec fn request_fields(req: SsrRequest) -> Seq<(Seq<char>, Seq<char>)> {
    seq![("method"@, req.method@), ("url"@, req.url@), ("remote_addr"@, req.remote_addr@)] + (
    match req.body {
        Some(body) => seq![("body"@, body@)],
        None => seq![],
    })
}

/// The properties of a request as `__render` gets it, but for its header fields.
/// A request without a body has no such property.
pub fn request_properties(req: &SsrRequest) -> (r: Vec<(String, String)>)
    ensures
        pairs_view(r@) == request_fields(*req),
        r@.len() == (if req.body is Some {
            4nat
        } else {
            3nat
        }),
        r@[0].0@ == "method"@ && r@[0].1@ == req.method@,
        r@[1].0@ == "url"@ && r@[1].1@ == req.url@,
        r@[2].0@ == "remote_addr"@ && r@[2].1@ == req.remote_addr@,
        req.body matches Some(body) ==> r@[3].0@ == "body"@ && r@[3].1@ == body@,
{
    let mut out: Vec<(String, String)> = Vec::new();
    out.push(("method".to_string(), req.method.clone()));
    out.push(("url".to_string(), req.url.clone()));
    out.push(("remote_addr".to_string(), req.remote_addr.clone()));
    match &req.body {
        Some(body) => {
            out.push(("body".to_string(), body.clone()));
        },
        None => {},
    }
    assert(pairs_view(out@) =~= request_fields(*req));
    out
}

/// Why an engine was not started or a page was not rendered.
#[derive(Debug)]
pub enum EngineError {
    /// The assets hold no bundle.
    BundleMissing,
    /// The bundle is no UTF-8, with what is wrong with it.
    BundleNotUtf8(String),
    /// The worker panicked while it started.
    WorkerPanicked,
    /// The worker has no runtime for its tasks.
    LocalRuntime(String),
    /// There is no JavaScript runtime.
    JsRuntime(String),
    /// The built-in classes and functions could not be installed.
    Polyfills(String),
    /// The fetch functions could not be installed.
    FetchFunctions(String),
    /// The bundle threw while it was evaluated.
    Bundle(String),
    /// The bundle defines no `__render`.
    RenderMissing(String),
    /// `__render` threw.
    RenderThrew(String),
    /// A value could not be passed to or from JavaScript.
    Conversion(String),
    /// The worker has ended.
    WorkerTerminated,
    /// The worker ended before it took the request.
    WorkerExited,
    /// The worker ended before it answered.
    WorkerDropped,
    /// The page took longer than this many seconds.
    TimedOut(u64),
}

impl EngineError {
    /// What the error says.
    pub open spec fn words(self) -> Seq<char> {
        match self {
            EngineError::BundleMissing =>
                "'entry.js' not found in embedded assets. Did you build with adapter-quickjs?"@,
            EngineError::BundleNotUtf8(e) => "entry.js is not valid UTF-8: "@ + e@,
            EngineError::WorkerPanicked => "SSR worker thread panicked during init"@,
            EngineError::LocalRuntime(e) => "local runtime: "@ + e@,
            EngineError::JsRuntime(e) => "QuickJS runtime: "@ + e@,
            EngineError::Polyfills(e) => "Failed to inject polyfills: "@ + e@,
            EngineError::FetchFunctions(e) => "Failed to inject fetch functions: "@ + e@,
            EngineError::Bundle(e) => "Failed to eval bundle: "@ + e@,
            EngineError::RenderMissing(e) => "__render not found: "@ + e@,
            EngineError::RenderThrew(e) => "__render() threw: "@ + e@,
            EngineError::Conversion(e) => e@,
            EngineError::WorkerTerminated =>
                "SSR worker has terminated — engine is unusable, recreate it"@,
            EngineError::WorkerExited => "SSR worker exited"@,
            EngineError::WorkerDropped => "SSR worker dropped"@,
            EngineError::TimedOut(secs) => "SSR render timed out after "@ + decimal(secs as nat)
                + "s"@,
        }
    }

    /// What the error says.
    pub fn message(&self) -> (r: String)
        ensures
            r@ == self.words(),
    {
        match self {
            EngineError::BundleMissing =>
                "'entry.js' not found in embedded assets. Did you build with adapter-quickjs?".to_string(),
            EngineError::BundleNotUtf8(e) => concat("entry.js is not valid UTF-8: ", e.as_str()),
            EngineError::WorkerPanicked => "SSR worker thread panicked during init".to_string(),
            EngineError::LocalRuntime(e) => concat("local runtime: ", e.as_str()),
            EngineError::JsRuntime(e) => concat("QuickJS runtime: ", e.as_str()),
            EngineError::Polyfills(e) => concat("Failed to inject polyfills: ", e.as_str()),
            EngineError::FetchFunctions(e) => concat(
                "Failed to inject fetch functions: ",
                e.as_str(),
            ),
            EngineError::Bundle(e) => concat("Failed to eval bundle: ", e.as_str()),
            EngineError::RenderMissing(e) => concat("__render not found: ", e.as_str()),
            EngineError::RenderThrew(e) => concat("__render() threw: ", e.as_str()),
            EngineError::Conversion(e) => e.clone(),
            EngineError::WorkerTerminated =>
                "SSR worker has terminated — engine is unusable, recreate it".to_string(),
            EngineError::WorkerExited => "SSR worker exited".to_string(),
            EngineError::WorkerDropped => "SSR worker dropped".to_string(),
            EngineError::TimedOut(secs) => {
                let mut text = concat("SSR render timed out after ", decimal_of(*secs).as_str());
                text.append("s");
                text
            },
        }
    }
}

/// Two strings, one after the other.
fn concat(a: &str, b: &str) -> (r: String)
    ensures
        r@ == a@ + b@,
{
    let mut out = a.to_string();
    out.append(b);
    out
}

/// What is wrong with bytes that are no UTF-8.
pub uninterp spec fn utf8_fault(bytes: Seq<u8>) -> Seq<char>;

/// The text of the error of `String::from_utf8`, which says where the bytes stop
/// being UTF-8. It depends on the bytes alone and is only named.
#[verifier::external_body]
fn describe_utf8_fault(bytes: &[u8]) -> (r: String)
    requires
        !valid_utf8(bytes@),
    ensures
        r@ == utf8_fault(bytes@),
{
    String::from_utf8(bytes.to_vec()).err().map_or(String::new(), |e| e.to_string())
}

/// The source of the bundle, from what the assets hold under `entry.js`.
pub fn load_bundle(file: Option<Vec<u8>>) -> (r: Result<String, EngineError>)
    ensures
        match r {
            Ok(source) => file matches Some(bytes) && valid_utf8(bytes@) && source@ == decode_utf8(
                bytes@,
            ),
            Err(EngineError::BundleMissing) => file is None,
            Err(EngineError::BundleNotUtf8(e)) => file matches Some(bytes) && !valid_utf8(bytes@)
                && e@ == utf8_fault(bytes@),
            Err(_) => false,
        },
{
    match file {
        Some(bytes) => {
            let copy = vstd::slice::slice_to_vec(bytes.as_slice());
            match String::from_utf8(bytes) {
                Ok(source) => Ok(source),
                Err(_) => Err(EngineError::BundleNotUtf8(describe_utf8_fault(copy.as_slice()))),
            }
        },
        None => Err(EngineError::BundleMissing),
    }
}

/// How much memory the JavaScript runtime may use, unless told otherwise: 10 MB.
pub const DEFAULT_MEMORY_LIMIT: usize = 10 * 1024 * 1024;

/// How deep its stack may be, unless told otherwise: 512 KB.
pub const DEFAULT_STACK_SIZE: usize = 512 * 1024;

/// The limits of the JavaScript runtime: its memory and its stack.
pub fn runtime_limits(memory_limit: Option<usize>, max_stack_size: Option<usize>) -> (r: (
    usize,
    usize,
))
    ensures
        r.0 == (match memory_limit {
            Some(n) => n,
            None => DEFAULT_MEMORY_LIMIT,
        }),
        r.1 == (match max_stack_size {
            Some(n) => n,
            None => DEFAULT_STACK_SIZE,
        }),
{
    let memory: usize = match memory_limit {
        Some(n) => n,
        None => DEFAULT_MEMORY_LIMIT,
    };
    let stack: usize = match max_stack_size {
        Some(n) => n,
        None => DEFAULT_STACK_SIZE,
    };
    (memory, stack)
}

/// What is said of a thrown value: itself if it is a string, else its `message`
/// if it has one, else how it is printed.
pub fn error_text(thrown: Option<String>, message: Option<String>, printed: String) -> (r: String)
    ensures
        r@ == (match (thrown, message) {
            (Some(text), _) => text@,
            (None, Some(text)) => text@,
            (None, None) => printed@,
        }),
{
    match thrown {
        Some(text) => text,
        None => match message {
            Some(text) => text,
            None => printed,
        },
    }
}

/// The body of a fetched answer, as JavaScript gets it.
pub fn js_body(result: &DispatchResult) -> (r: String)
    ensures
        r@ == lossy_text(result.body@),
{
    decode_lossy(result.body.as_slice())
}

/// Where the first of two characters stands, or the length where neither does.
pub open spec fn first_of(s: Seq<char>, a: char, b: char) -> int
    decreases s.len(),
{
    if s.len() == 0 || s[0] == a || s[0] == b {
        0
    } else {
        1 + first_of(s.skip(1), a, b)
    }
}

/// Where `//` first stands, or the length where it does not.
pub open spec fn first_double_slash(s: Seq<char>) -> int
    decreases s.len(),
{
    if s.len() == 0 || (s.len() > 1 && s[0] == '/' && s[1] == '/') {
        0
    } else {
        1 + first_double_slash(s.skip(1))
    }
}

/// The path of a request target: what comes before the query and the fragment,
/// and in a target with a scheme and an authority what comes after them.
pub open spec fn target_path(target: Seq<char>) -> Seq<char> {
    let p = target.take(first_of(target, '?', '#'));
    if p.len() > 0 && p[0] == '/' {
        p
    } else {
        let n = first_double_slash(p);
        if n >= p.len() {
            p
        } else {
            let rest = p.skip(n + 2);
            let m = first_of(rest, '/', '/');
            if m >= rest.len() {
                seq!['/']
            } else {
                rest.skip(m)
            }
        }
    }
}

proof fn lemma_first_of(s: Seq<char>, a: char, b: char, n: int)
    requires
        0 <= n <= s.len(),
        forall|j: int| 0 <= j < n ==> s[j] != a && s[j] != b,
        n < s.len() ==> s[n] == a || s[n] == b,
    ensures
        first_of(s, a, b) == n,
    decreases s.len(),
{
    if n > 0 {
        lemma_first_of(s.skip(1), a, b, n - 1);
    }
}

proof fn lemma_first_double_slash(s: Seq<char>, n: int)
    requires
        0 <= n <= s.len(),
        forall|j: int| 0 <= j < n && j + 1 < s.len() ==> !(#[trigger] s[j] == '/' && s[j + 1] == '/'),
        n < s.len() ==> n + 1 < s.len() && s[n] == '/' && s[n + 1] == '/',
    ensures
        first_double_slash(s) == n,
    decreases s.len(),
{
    if n > 0 {
        assert forall|j: int| 0 <= j < n - 1 && j + 1 < s.skip(1).len() implies !(#[trigger] s.skip(
            1,
        )[j] == '/' && s.skip(1)[j + 1] == '/') by {
            assert(!(s[j + 1] == '/' && s[j + 2] == '/'));
        }
        if s.len() > 1 {
            assert(!(s[0] == '/' && s[1] == '/'));
        }
        lemma_first_double_slash(s.skip(1), n - 1);
    }
}

/// The path of a request target.
pub fn path_of_target(target: &str) -> (r: String)
    ensures
        r@ == target_path(target@),
{
    let chars = chars_of(target);
    let mut end: usize = 0;
    while end < chars.len() && chars[end] != '?' && chars[end] != '#'
        invariant
            end <= chars@.len(),
            forall|j: int| 0 <= j < end ==> chars@[j] != '?' && chars@[j] != '#',
        decreases chars@.len() - end,
    {
        end = end + 1;
    }
    let ghost p = chars@.take(end as int);
    proof {
        lemma_first_of(chars@, '?', '#', end as int);
        assert(chars@.subrange(0, end as int) =~= p);
    }
    if end > 0 && chars[0] == '/' {
        return string_of(&chars, 0, end);
    }
    let mut n: usize = 0;
    while n < end && !(end - n > 1 && chars[n] == '/' && chars[n + 1] == '/')
        invariant
            n <= end <= chars@.len(),
            p == chars@.take(end as int),
            forall|j: int|
                0 <= j < n && j + 1 < end ==> !(#[trigger] p[j] == '/' && p[j + 1] == '/'),
        decreases end - n,
    {
        n = n + 1;
    }
    proof {
        lemma_first_double_slash(p, n as int);
    }
    if n == end {
        return string_of(&chars, 0, end);
    }
    let from: usize = n + 2;
    let ghost rest = p.skip(from as int);
    let mut m: usize = from;
    while m < end && chars[m] != '/'
        invariant
            from <= m <= end <= chars@.len(),
            p == chars@.take(end as int),
            rest == p.skip(from as int),
            forall|j: int| 0 <= j < m - from ==> rest[j] != '/',
        decreases end - m,
    {
        assert(rest[m - from] == chars@[m as int]);
        m = m + 1;
    }
    proof {
        if m < end {
            assert(rest[m - from] == chars@[m as int]);
        }
        lemma_first_of(rest, '/', '/', m - from);
    }
    if m == end {
        let mut out = String::new();
        out.push('/');
        assert(out@ =~= seq!['/']);
        out
    } else {
        assert(chars@.subrange(m as int, end as int) =~= rest.skip(m - from));
        string_of(&chars, m, end)
    }
}

/// What a session is doing: the path of the page that is being rendered, if any,
/// and whether it has fetched anything.
pub struct SessionView {
    /// The path of the page that is being rendered.
    pub page: Option<Seq<char>>,
    /// Whether anything was fetched since the last page was begun.
    pub fetched: bool,
}

/// Something that a page asks for.
pub enum Fetch {
    /// A relative path, of the router.
    Internal(Seq<char>),
    /// An absolute URL, of the network.
    External,
}

/// A session that begins a page.
pub open spec fn begun(url: Seq<char>) -> SessionView {
    SessionView { page: Some(target_path(url)), fetched: false }
}

/// A session after a fetch.
pub open spec fn after_fetch(s: SessionView, fetch: Fetch) -> SessionView {
    SessionView { page: s.page, fetched: true }
}

/// Whether a fetch is refused: the page that is being rendered asks for itself,
/// however its path is escaped, and would wait for itself for ever.
pub open spec fn is_recursive(s: SessionView, fetch: Fetch) -> bool {
    match (s.page, fetch) {
        (Some(page), Fetch::Internal(path)) => same_path(page, target_path(path)),
        _ => false,
    }
}

/// A session after several fetches.
pub open spec fn after_fetches(s: SessionView, fetches: Seq<Fetch>) -> SessionView
    decreases fetches.len(),
{
    if fetches.len() == 0 {
        s
    } else {
        after_fetch(after_fetches(s, fetches.drop_last()), fetches.last())
    }
}

/// A session that has ended its page.
pub open spec fn ended(s: SessionView) -> SessionView {
    SessionView { page: None, fetched: s.fetched }
}

/// What `__render` gave for a request.
#[derive(Debug)]
pub struct RenderedPage {
    /// The status code.
    pub status: u16,
    /// The header fields, if it gave any.
    pub headers: Option<Vec<(String, String)>>,
    /// The page.
    pub body: String,
}

/// The page that is handed out for what `__render` gave. Without header fields it
/// has none.
pub open spec fn page_of(page: RenderedPage, fetched: bool) -> ResponseView {
    ResponseView {
        status: page.status,
        headers: match page.headers {
            Some(list) => pairs_view(list@),
            None => seq![],
        },
        body: page.body@,
        fetched,
    }
}

/// The state of a worker, which renders one page at a time.
pub struct RenderSession {
    page: Option<String>,
    fetched: bool,
}

impl View for RenderSession {
    type V = SessionView;

    closed spec fn view(&self) -> SessionView {
        SessionView {
            page: match self.page {
                Some(path) => Some(path@),
                None => None,
            },
            fetched: self.fetched,
        }
    }
}

impl RenderSession {
    /// A session that renders nothing yet.
    pub fn new() -> (r: Self)
        ensures
            r@ == (SessionView { page: None, fetched: false }),
    {
        RenderSession { page: None, fetched: false }
    }

    /// Begins a page.
    pub fn begin(&mut self, url: &str)
        ensures
            final(self)@ == begun(url@),
    {
        self.page = Some(path_of_target(url));
        self.fetched = false;
    }

    /// Whether anything was fetched since the last page was begun.
    pub fn fetched(&self) -> (r: bool)
        ensures
            r == self@.fetched,
    {
        self.fetched
    }

    /// Takes note of a fetch of a path, and refuses it where the page that is
    /// being rendered asks for itself. Any other fetch goes to the router.
    pub fn internal_fetch(&mut self, path: &str) -> (r: Option<DispatchResult>)
        ensures
            final(self)@ == after_fetch(old(self)@, Fetch::Internal(path@)),
            match r {
                Some(answer) => is_recursive(old(self)@, Fetch::Internal(path@)) && answer@
                    == FetchFailure::Recursive.answer(),
                None => !is_recursive(old(self)@, Fetch::Internal(path@)),
            },
    {
        self.fetched = true;
        let asked = path_of_target(path);
        match &self.page {
            Some(page) => if is_same_path(page.as_str(), asked.as_str()) {
                Some(FetchFailure::Recursive.result())
            } else {
                None
            },
            None => None,
        }
    }

    /// Takes note of a fetch of an absolute URL.
    pub fn external_fetch(&mut self)
        ensures
            final(self)@ == after_fetch(old(self)@, Fetch::External),
    {
        self.fetched = true;
    }

    /// The page that is handed out for what `__render` gave.
    pub fn page(&self, page: RenderedPage) -> (r: SsrResponse)
        ensures
            r@ == page_of(page, self@.fetched),
    {
        let headers = match page.headers {
            Some(list) => list,
            None => {
                let list: Vec<(String, String)> = Vec::new();
                assert(pairs_view(list@) =~= seq![]);
                list
            },
        };
        SsrResponse { status: page.status, headers, body: page.body, fetched: self.fetched }
    }

    /// Ends a page, rendered or not.
    pub fn end(&mut self)
        ensures
            final(self)@ == ended(old(self)@),
    {
        self.page = None;
    }
}

/// What became of a request that was handed to the worker.
pub enum WorkerReply {
    /// The worker took it and answered.
    Answered(Result<SsrResponse, EngineError>),
    /// The worker was gone before it could take it.
    NotTaken,
    /// The worker took it and went without an answer.
    Dropped,
    /// No answer came in time.
    TimedOut,
}

/// Whether a request may be handed to the worker: not to one that has ended.
pub fn admit_render(worker_alive: bool) -> (r: Result<(), EngineError>)
    ensures
        worker_alive ==> r is Ok,
        !worker_alive ==> r == Err::<(), _>(EngineError::WorkerTerminated),
{
    if worker_alive {
        Ok(())
    } else {
        Err(EngineError::WorkerTerminated)
    }
}

/// What a request for a page comes to, and whether the worker is still known to
/// be alive.
pub fn conclude_render(reply: WorkerReply, timeout_secs: u64) -> (r: (
    Result<SsrResponse, EngineError>,
    bool,
))
    ensures
        r.0 == (match reply {
            WorkerReply::Answered(result) => result,
            WorkerReply::NotTaken => Err(EngineError::WorkerExited),
            WorkerReply::Dropped => Err(EngineError::WorkerDropped),
            WorkerReply::TimedOut => Err(EngineError::TimedOut(timeout_secs)),
        }),
        r.1 == !(reply is NotTaken),
{
    match reply {
        WorkerReply::Answered(result) => (result, true),
        WorkerReply::NotTaken => (Err(EngineError::WorkerExited), false),
        WorkerReply::Dropped => (Err(EngineError::WorkerDropped), true),
        WorkerReply::TimedOut => (Err(EngineError::TimedOut(timeout_secs)), true),
    }
}

/// A page is reported to have fetched something exactly when it fetched
/// something since it was begun, whatever was fetched for earlier pages.
pub proof fn law_fetched_is_exact(url: Seq<char>, fetches: Seq<Fetch>)
    ensures
        after_fetches(begun(url), fetches).fetched == (fetches.len() > 0),
        after_fetches(begun(url), fetches).page == begun(url).page,
    decreases fetches.len(),
{
    if fetches.len() > 0 {
        law_fetched_is_exact(url, fetches.drop_last());
    }
}

/// While a page is rendered, a fetch of its own path is refused, with any query
/// or fragment and however either path is escaped, and a fetch of any other path
/// is not; however much the page has fetched before.
pub proof fn law_only_own_path_is_refused(url: Seq<char>, fetches: Seq<Fetch>, path: Seq<char>)
    ensures
        is_recursive(after_fetches(begun(url), fetches), Fetch::Internal(path)) <==> same_path(
            target_path(url),
            target_path(path),
        ),
        !is_recursive(after_fetches(begun(url), fetches), Fetch::External),
{
    law_fetched_is_exact(url, fetches);
}

proof fn lemma_rooted_bytes(s: Seq<char>)
    ensures
        path_bytes(encode_utf8(seq!['/'] + s)) == seq![47u8] + path_bytes(encode_utf8(s)),
{
    let t = seq!['/'] + s;
    assert(t.drop_first() =~= s);
    assert(encode_utf8(t) =~= seq![47u8] + encode_utf8(s)) by {
        assert(encode_scalar(47) =~= seq![47u8]) by {
            is_ascii_chars_encode_utf8(seq!['/']);
            assert(seq!['/'].drop_first() =~= Seq::<char>::empty());
            assert(encode_utf8(seq!['/']) =~= encode_scalar(47) + encode_utf8(Seq::<char>::empty()));
            assert(encode_utf8(seq!['/'])[0] == 47);
        }
    }
    assert(encode_utf8(t).skip(1) =~= encode_utf8(s));
}

/// A page cannot reach itself by escaping its own path: with every byte behind
/// the first slash escaped, the fetch is refused all the same.
pub proof fn law_escaped_own_path_is_refused(name: Seq<char>, fetches: Seq<Fetch>)
    requires
        !encode_utf8(name).contains(37),
        !name.contains('?'),
        !name.contains('#'),
    ensures
        is_recursive(
            after_fetches(begun(seq!['/'] + name), fetches),
            Fetch::Internal(seq!['/'] + fully_escaped(encode_utf8(name))),
        ),
{
    let url = seq!['/'] + name;
    let escaped = fully_escaped(encode_utf8(name));
    let path = seq!['/'] + escaped;
    law_only_own_path_is_refused(url, fetches, path);
    lemma_fully_escaped(encode_utf8(name));
    lemma_no_escapes(encode_utf8(name));
    lemma_escapes_only(encode_utf8(name));
    assert forall|j: int| 0 <= j < url.len() implies url[j] != '?' && url[j] != '#' by {
        if j > 0 {
            assert(url[j] == name[j - 1]);
            assert(name.contains(name[j - 1]));
        }
    }
    assert forall|j: int| 0 <= j < path.len() implies path[j] != '?' && path[j] != '#' by {
        if j > 0 {
            assert(path[j] == escaped[j - 1]);
        }
    }
    lemma_first_of(url, '?', '#', url.len() as int);
    lemma_first_of(path, '?', '#', path.len() as int);
    assert(url.take(url.len() as int) =~= url);
    assert(path.take(path.len() as int) =~= path);
    lemma_rooted_bytes(name);
    lemma_rooted_bytes(escaped);
}

proof fn lemma_escapes_only(b: Seq<u8>)
    ensures
        forall|i: int|
            0 <= i < fully_escaped(b).len() ==> #[trigger] fully_escaped(b)[i] != '?'
                && fully_escaped(b)[i] != '#',
    decreases b.len(),
{
    if b.len() > 0 {
        let rest = fully_escaped(b.skip(1));
        lemma_escapes_only(b.skip(1));
        lemma_upper_digit(b[0] as int / 16);
        lemma_upper_digit(b[0] as int % 16);
        assert forall|i: int| 0 <= i < fully_escaped(b).len() implies #[trigger] fully_escaped(b)[i]
            != '?' && fully_escaped(b)[i] != '#' by {
            if i >= 3 {
                assert(fully_escaped(b)[i] == rest[i - 3]);
            }
        }
    }
}

/// Between two pages nothing is refused.
pub proof fn law_idle_session_refuses_nothing(s: SessionView, fetch: Fetch)
    ensures
        !is_recursive(ended(s), fetch),
{
}

/// `__render` gets every part of a request character for character, the query and
/// the fragment of its target among them: each property once, and no others.
pub proof fn law_page_gets_the_whole_request(req: SsrRequest, name: Seq<char>)
    ensures
        values_of(request_fields(req), "method"@) == seq![req.method@],
        values_of(request_fields(req), "url"@) == seq![req.url@],
        values_of(request_fields(req), "remote_addr"@) == seq![req.remote_addr@],
        values_of(request_fields(req), "body"@) == (match req.body {
            Some(body) => seq![body@],
            None => seq![],
        }),
        name != "method"@ && name != "url"@ && name != "remote_addr"@ && name != "body"@
            ==> values_of(request_fields(req), name) == Seq::<Seq<char>>::empty(),
{
    reveal_strlit("method");
    reveal_strlit("url");
    reveal_strlit("remote_addr");
    reveal_strlit("body");
    assert("method"@.len() == 6 && "url"@.len() == 3 && "remote_addr"@.len() == 11 && "body"@.len()
        == 4);
    let l = request_fields(req);
    let head = seq![
        ("method"@, req.method@),
        ("url"@, req.url@),
        ("remote_addr"@, req.remote_addr@),
    ];
    assert(l.take(3) =~= head);
    lemma_values_of_head(head, "method"@);
    lemma_values_of_head(head, "url"@);
    lemma_values_of_head(head, "remote_addr"@);
    lemma_values_of_head(head, "body"@);
    lemma_values_of_head(head, name);
    if let Some(body) = req.body {
        assert(l =~= head.push(("body"@, body@)));
        lemma_push_values(head, "body"@, body@, "method"@);
        lemma_push_values(head, "body"@, body@, "url"@);
        lemma_push_values(head, "body"@, body@, "remote_addr"@);
        lemma_push_values(head, "body"@, body@, "body"@);
        lemma_push_values(head, "body"@, body@, name);
        assert(Seq::<Seq<char>>::empty().push(body@) =~= seq![body@]);
    } else {
        assert(l =~= head);
    }
}

/// The values of a name among three pairs with different names.
proof fn lemma_values_of_head(l: Seq<(Seq<char>, Seq<char>)>, name: Seq<char>)
    requires
        l.len() == 3,
        l[0].0 != l[1].0 && l[0].0 != l[2].0 && l[1].0 != l[2].0,
    ensures
        name == l[0].0 ==> values_of(l, name) == seq![l[0].1],
        name == l[1].0 ==> values_of(l, name) == seq![l[1].1],
        name == l[2].0 ==> values_of(l, name) == seq![l[2].1],
        name != l[0].0 && name != l[1].0 && name != l[2].0 ==> values_of(l, name) == Seq::<
            Seq<char>,
        >::empty(),
{
    let none = Seq::<(Seq<char>, Seq<char>)>::empty();
    let one = none.push(l[0]);
    let two = one.push(l[1]);
    assert(l =~= two.push(l[2]));
    lemma_push_values(none, l[0].0, l[0].1, name);
    lemma_push_values(one, l[1].0, l[1].1, name);
    lemma_push_values(two, l[2].0, l[2].1, name);
    assert(values_of(none, name) =~= seq![]);
    assert(values_of(l, name) =~= (if name == l[0].0 {
        seq![l[0].1]
    } else if name == l[1].0 {
        seq![l[1].1]
    } else if name == l[2].0 {
        seq![l[2].1]
    } else {
        seq![]
    }));
}

/// Two requests are alike to `__render` only where they are alike: requests that
/// differ in their method, target, client or body give different properties.
pub proof fn law_requests_are_told_apart(a: SsrRequest, b: SsrRequest)
    requires
        request_fields(a) == request_fields(b),
    ensures
        a.method@ == b.method@,
        a.url@ == b.url@,
        a.remote_addr@ == b.remote_addr@,
        a.body is Some == b.body is Some,
        a.body is Some ==> a.body->0@ == b.body->0@,
{
    law_page_gets_the_whole_request(a, seq![]);
    law_page_gets_the_whole_request(b, seq![]);
    assert(seq![a.method@][0] == seq![b.method@][0]);
    assert(seq![a.url@][0] == seq![b.url@][0]);
    assert(seq![a.remote_addr@][0] == seq![b.remote_addr@][0]);
    let x = values_of(request_fields(a), "body"@);
    let y = values_of(request_fields(b), "body"@);
    if a.body is Some {
        assert(x.len() == 1 && x[0] == a.body->0@);
    }
    if b.body is Some {
        assert(y.len() == 1 && y[0] == b.body->0@);
    }
}

/// A page is handed out just as `__render` gave it: its status, its header fields
/// in order, and its body.
pub proof fn law_page_is_handed_out_whole(page: RenderedPage, fetched: bool, i: int)
    ensures
        page_of(page, fetched).status == page.status,
        page_of(page, fetched).body == page.body@,
        page_of(page, fetched).fetched == fetched,
        page.headers is None ==> page_of(page, fetched).headers.len() == 0,
        page.headers matches Some(list) ==> page_of(page, fetched).headers.len() == list@.len()
            && (0 <= i < list@.len() ==> page_of(page, fetched).headers[i] == (
            list@[i].0@,
            list@[i].1@,
        )),
{
}

/// An error that was reported from outside is passed on word for word, behind what
/// it was about; a page that took too long is reported with its time limit.
pub proof fn law_errors_are_passed_on(e: String, secs: u64)
    ensures
        EngineError::BundleNotUtf8(e).words() == "entry.js is not valid UTF-8: "@ + e@,
        EngineError::LocalRuntime(e).words() == "local runtime: "@ + e@,
        EngineError::JsRuntime(e).words() == "QuickJS runtime: "@ + e@,
        EngineError::Polyfills(e).words() == "Failed to inject polyfills: "@ + e@,
        EngineError::FetchFunctions(e).words() == "Failed to inject fetch functions: "@ + e@,
        EngineError::Bundle(e).words() == "Failed to eval bundle: "@ + e@,
        EngineError::RenderMissing(e).words() == "__render not found: "@ + e@,
        EngineError::RenderThrew(e).words() == "__render() threw: "@ + e@,
        EngineError::Conversion(e).words() == e@,
        EngineError::TimedOut(secs).words() == "SSR render timed out after "@ + decimal(
            secs as nat,
        ) + "s"@,
{
}

proof fn lemma_cut(p: Seq<char>, mark: char, q: Seq<char>)
    requires
        mark == '?' || mark == '#',
        forall|j: int| 0 <= j < p.len() ==> p[j] != '?' && p[j] != '#',
    ensures
        (p + seq![mark] + q).take(first_of(p + seq![mark] + q, '?', '#')) == p,
        p.take(first_of(p, '?', '#')) == p,
{
    let t = p + seq![mark] + q;
    assert forall|j: int| 0 <= j < p.len() implies t[j] != '?' && t[j] != '#' by {
        assert(t[j] == p[j]);
    }
    assert(t[p.len() as int] == mark);
    lemma_first_of(t, '?', '#', p.len() as int);
    lemma_first_of(p, '?', '#', p.len() as int);
    assert(t.take(p.len() as int) =~= p);
    assert(p.take(p.len() as int) =~= p);
}

/// The path of a target does not depend on its query or fragment, is the target
/// itself where that is a path without either, and is what follows the authority
/// where the target begins with a scheme and an authority.
pub proof fn law_target_path(
    path: Seq<char>,
    mark: char,
    rest: Seq<char>,
    scheme: Seq<char>,
    authority: Seq<char>,
)
    requires
        path.len() > 0,
        path[0] == '/',
        !path.contains('?') && !path.contains('#'),
        mark == '?' || mark == '#',
        !scheme.contains('/') && !scheme.contains('?') && !scheme.contains('#'),
        scheme.len() > 0,
        !authority.contains('/') && !authority.contains('?') && !authority.contains('#'),
    ensures
        target_path(path) == path,
        target_path(path + seq![mark] + rest) == path,
        target_path(scheme + seq!['/', '/'] + authority + path) == path,
        target_path(scheme + seq!['/', '/'] + authority) == seq!['/'],
{
    assert forall|j: int| 0 <= j < path.len() implies path[j] != '?' && path[j] != '#' by {
        assert(path.contains(path[j]));
    }
    lemma_cut(path, mark, rest);
    let h = scheme + seq!['/', '/'] + authority;
    let t = h + path;
    let n = scheme.len() as int;
    assert forall|j: int| 0 <= j < t.len() implies t[j] != '?' && t[j] != '#' by {
        if j < n {
            assert(t[j] == scheme[j]);
            assert(scheme.contains(scheme[j]));
        } else if n + 2 <= j < h.len() {
            assert(t[j] == authority[j - n - 2]);
            assert(authority.contains(authority[j - n - 2]));
        } else if h.len() <= j {
            assert(t[j] == path[j - h.len()]);
        }
    }
    assert forall|j: int| 0 <= j < h.len() implies h[j] != '?' && h[j] != '#' by {
        assert(t[j] == h[j]);
    }
    lemma_cut(t, mark, rest);
    lemma_cut(h, mark, rest);
    assert(scheme.contains(scheme[0]));
    assert(t[0] == scheme[0] && h[0] == scheme[0]);
    assert forall|j: int| 0 <= j < n && j + 1 < t.len() implies !(#[trigger] t[j] == '/' && t[j + 1]
        == '/') by {
        assert(t[j] == scheme[j]);
        assert(scheme.contains(scheme[j]));
    }
    assert forall|j: int| 0 <= j < n && j + 1 < h.len() implies !(#[trigger] h[j] == '/' && h[j + 1]
        == '/') by {
        assert(h[j] == t[j]);
        assert(t[j] == scheme[j]);
        assert(scheme.contains(scheme[j]));
    }
    assert(t[n] == '/' && t[n + 1] == '/' && h[n] == '/' && h[n + 1] == '/');
    lemma_first_double_slash(t, n);
    lemma_first_double_slash(h, n);
    let m = authority.len() as int;
    let x = t.skip(n + 2);
    let y = h.skip(n + 2);
    assert(x =~= authority + path);
    assert(y =~= authority);
    assert forall|j: int| 0 <= j < m implies authority[j] != '/' by {
        assert(authority.contains(authority[j]));
    }
    assert forall|j: int| 0 <= j < m implies x[j] != '/' by {
        assert(x[j] == authority[j]);
    }
    assert(x[m] == '/');
    lemma_first_of(x, '/', '/', m);
    lemma_first_of(y, '/', '/', m);
    assert(x.skip(m) =~= path);
}

/// A page is asked for by the path of its target alone: while it is rendered, a
/// fetch of a path without escapes is refused exactly when it is that path.
pub proof fn law_plain_paths_are_told_apart(page: Seq<char>, path: Seq<char>, fetches: Seq<Fetch>)
    requires
        page.len() > 0 && page[0] == '/',
        path.len() > 0 && path[0] == '/',
        !page.contains('?') && !page.contains('#') && !encode_utf8(page).contains(37),
        !path.contains('?') && !path.contains('#') && !encode_utf8(path).contains(37),
    ensures
        is_recursive(after_fetches(begun(page), fetches), Fetch::Internal(path)) <==> page == path,
{
    law_target_path(page, '?', seq![], seq!['a'], seq![]);
    law_target_path(path, '?', seq![], seq!['a'], seq![]);
    law_only_own_path_is_refused(page, fetches, path);
    lemma_no_escapes(encode_utf8(page));
    lemma_no_escapes(encode_utf8(path));
    lemma_encode_utf8_injective(page, path);
}

/// A query or a fragment has no part in the path of any target, and a target with
/// neither an authority nor a slash in front is its own path.
pub proof fn law_path_is_without_query(target: Seq<char>, mark: char, rest: Seq<char>)
    requires
        mark == '?' || mark == '#',
        !target.contains('?') && !target.contains('#'),
    ensures
        target_path(target + seq![mark] + rest) == target_path(target),
        (forall|j: int|
            0 <= j < target.len() - 1 ==> !(#[trigger] target[j] == '/' && target[j + 1] == '/'))
            ==> target_path(target) == target,
{
    assert forall|j: int| 0 <= j < target.len() implies target[j] != '?' && target[j] != '#' by {
        assert(target.contains(target[j]));
    }
    lemma_cut(target, mark, rest);
    if forall|j: int|
        0 <= j < target.len() - 1 ==> !(#[trigger] target[j] == '/' && target[j + 1] == '/') {
        lemma_first_double_slash(target, target.len() as int);
    }
}

} // verus!
