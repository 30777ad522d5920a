//! The way of a request for a page: looked up in the cache, rendered, stored, and
//! turned into an answer. Every web framework shares it.

use crate::cache::{
    cache_ok, cacheable, cached, is_cacheable, law_cacheable_exactly, law_get_after_set,
    law_set_invents_nothing, stored, CachedEntry, EntryView, SsrCache,
};
use crate::engine::{
    after_fetches, begun, law_fetched_is_exact, EngineError, Fetch, ResponseView, SsrRequest,
    SsrResponse,
};
use crate::header_map::CacheState;
use crate::pairs::clone_pairs;
use crate::text::pairs_view;
use crate::url_parts::optional_str;
use std::collections::HashMap;
use std::sync::Arc;
use std::time::{Duration, Instant};
use vstd::prelude::*;
use vstd::utf8::{decode_utf8, valid_utf8};

pub use crate::dispatch::MAX_BODY_SIZE;

verus! {

/// The page that is served when rendering fails, unless another is configured.
pub const ERROR_PAGE_500: &'static str =
    "<html><body><h1>500 Internal Server Error</h1><p>SSR render failed</p></body></html>";

/// A length of time of whole seconds.
pub uninterp spec fn seconds(secs: u64) -> Duration;

/// `Duration::from_secs`: a length of time that depends on the number alone.
pub assume_specification[ Duration::from_secs ](secs: u64) -> (r: Duration)
    ensures
        r == seconds(secs),
;

/// `Instant::now`: the present moment, of which nothing can be said.
pub assume_specification[ Instant::now ]() -> Instant;

/// The configuration of an engine and its handler.
#[derive(Debug)]
pub struct SsrConfig {
    /// The page that is served when rendering fails. Without one, a built-in
    /// page is served.
    pub error_html: Option<String>,
    /// How long a page may take to render. The default is 30 seconds.
    pub render_timeout: Duration,
}

impl Default for SsrConfig {
    fn default() -> (r: Self)
        ensures
            r.error_html is None,
            r.render_timeout == seconds(30),
    {
        SsrConfig { error_html: None, render_timeout: Duration::from_secs(30) }
    }
}

/// A request for a page, as it comes from a web framework.
#[derive(Debug)]
pub struct IncomingRequest {
    /// The path of the target.
    pub path: String,
    /// Whether the target has a query.
    pub has_query: bool,
    /// The request as it is handed to the engine.
    pub ssr_request: SsrRequest,
}

/// A request for a page, from what a web framework knows of it. A client whose
/// address is not known is taken to be local.
pub fn incoming_request(
    method: String,
    url: String,
    path: String,
    query: Option<&str>,
    headers: HashMap<String, String>,
    body: Option<String>,
    remote_addr: Option<String>,
) -> (r: IncomingRequest)
    ensures
        r.path == path,
        r.has_query == query is Some,
        r.ssr_request.method == method,
        r.ssr_request.url == url,
        r.ssr_request.headers == headers,
        r.ssr_request.body == body,
        r.ssr_request.remote_addr@ == (match remote_addr {
            Some(address) => address@,
            None => "127.0.0.1"@,
        }),
{
    let address = match remote_addr {
        Some(address) => address,
        None => "127.0.0.1".to_string(),
    };
    IncomingRequest {
        path,
        has_query: query.is_some(),
        ssr_request: SsrRequest { method, url, headers, body, remote_addr: address },
    }
}

/// What a request for a page comes to.
pub enum RenderOutcome {
    /// The page was in the cache.
    CacheHit(Arc<CachedEntry>),
    /// The page was rendered.
    Rendered(SsrResponse),
    /// The page was not rendered.
    Error,
}

/// What is remembered of a request while its page is being rendered.
#[derive(Debug)]
pub struct RenderTicket {
    key: String,
    method: String,
    has_query: bool,
}

/// A ticket as mathematical data.
pub struct TicketView {
    /// The key of the page in the cache.
    pub key: Seq<char>,
    /// The method of the request.
    pub method: Seq<char>,
    /// Whether the target has a query.
    pub has_query: bool,
}

impl View for RenderTicket {
    type V = TicketView;

    closed spec fn view(&self) -> TicketView {
        TicketView { key: self.key@, method: self.method@, has_query: self.has_query }
    }
}

/// What is to be done about a request for a page.
pub enum HandleStep {
    /// Nothing more: this is the outcome.
    Done(RenderOutcome),
    /// The engine has to render the page.
    Render {
        /// What has to be given back with the result.
        ticket: RenderTicket,
        /// What the engine has to render.
        request: SsrRequest,
    },
}

/// The key of a page in the cache.
pub open spec fn cache_key(method: Seq<char>, path: Seq<char>) -> Seq<char> {
    method.push(':') + path
}

/// The ticket of a request.
pub open spec fn ticket_of(incoming: IncomingRequest) -> TicketView {
    TicketView {
        key: cache_key(incoming.ssr_request.method@, incoming.path@),
        method: incoming.ssr_request.method@,
        has_query: incoming.has_query,
    }
}

/// Whether the rendered page of a ticket may be cached.
pub open spec fn may_cache(ticket: TicketView, page: ResponseView) -> bool {
    cacheable(ticket.method, page.status, page.headers, ticket.has_query, page.fetched)
}

/// The entry of a rendered page.
pub open spec fn entry_of(page: ResponseView, cached_at: Instant) -> EntryView {
    EntryView { status: page.status, headers: page.headers, body: page.body, cached_at }
}

/// What a rendered page makes of the cache: it is stored where it may be, and
/// else nothing changes.
pub open spec fn is_cached_after(
    before: Seq<(Seq<char>, EntryView)>,
    after: Seq<(Seq<char>, EntryView)>,
    ticket: TicketView,
    page: ResponseView,
) -> bool {
    if may_cache(ticket, page) {
        exists|t: Instant| after == stored(before, ticket.key, #[trigger] entry_of(page, t))
    } else {
        after == before
    }
}

/// The part of a handler that no web framework has a say in: the engine, the
/// cache and the page that is served when rendering fails.
pub struct SsrHandlerCore<E> {
    engine: Arc<E>,
    cache: SsrCache,
    error_html: String,
}

impl<E> SsrHandlerCore<E> {
    /// What the cache holds.
    pub closed spec fn entries(self) -> Seq<(Seq<char>, EntryView)> {
        self.cache@
    }

    /// The page that is served when rendering fails.
    pub closed spec fn error_page(self) -> Seq<char> {
        self.error_html@
    }

    /// The engine.
    pub closed spec fn the_engine(self) -> Arc<E> {
        self.engine
    }

    /// A handler for an engine, with an empty cache.
    pub fn new(engine: Arc<E>, config: &SsrConfig) -> (r: Self)
        ensures
            r.the_engine() == engine,
            r.entries() == Seq::<(Seq<char>, EntryView)>::empty(),
            r.error_page() == (match config.error_html {
                Some(html) => html@,
                None => ERROR_PAGE_500@,
            }),
            config.error_html is None ==> r.error_page()
                == "<html><body><h1>500 Internal Server Error</h1><p>SSR render failed</p></body></html>"@,
    {
        let error_html = match &config.error_html {
            Some(html) => html.clone(),
            None => ERROR_PAGE_500.to_string(),
        };
        SsrHandlerCore { engine, cache: SsrCache::new(), error_html }
    }

    /// A handler for an engine, with a cache that there is already.
    pub fn new_from_parts(engine: Arc<E>, cache: SsrCache) -> (r: Self)
        ensures
            r.the_engine() == engine,
            r.entries() == cache@,
            r.error_page() == ERROR_PAGE_500@,
    {
        SsrHandlerCore { engine, cache, error_html: ERROR_PAGE_500.to_string() }
    }

    /// The cache.
    pub fn cache(&self) -> (r: &SsrCache)
        ensures
            r@ == self.entries(),
    {
        &self.cache
    }

    /// The engine.
    pub fn engine(&self) -> (r: &Arc<E>)
        ensures
            *r == self.the_engine(),
    {
        &self.engine
    }

    /// The page that is served when rendering fails.
    pub fn error_html(&self) -> (r: String)
        ensures
            r@ == self.error_page(),
    {
        self.error_html.clone()
    }

    /// Takes a request in. A page that is in the cache is the outcome at once;
    /// any other has to be rendered. The cache is not looked at for a request
    /// with a query.
    pub fn begin(&self, incoming: IncomingRequest) -> (r: HandleStep)
        ensures
            match r {
                HandleStep::Done(RenderOutcome::CacheHit(entry)) => !incoming.has_query && cached(
                    self.entries(),
                    ticket_of(incoming).key,
                ) == Some((*entry)@) && cached(
                    self.entries(),
                    incoming.ssr_request.method@ + seq![':'] + incoming.path@,
                ) == Some((*entry)@),
                HandleStep::Done(_) => false,
                HandleStep::Render { ticket, request } => {
                    &&& incoming.has_query || cached(
                        self.entries(),
                        ticket_of(incoming).key,
                    ) is None
                    &&& ticket@ == ticket_of(incoming)
                    &&& ticket@.key == incoming.ssr_request.method@ + seq![':'] + incoming.path@
                    &&& ticket@.method == incoming.ssr_request.method@
                    &&& ticket@.has_query == incoming.has_query
                    &&& request == incoming.ssr_request
                },
            },
    {
        let mut key = incoming.ssr_request.method.clone();
        key.push(':');
        key.append(incoming.path.as_str());
        proof {
            law_ticket_names_the_whole_request(incoming);
        }
        if !incoming.has_query {
            match self.cache.get(key.as_str()) {
                Some(entry) => {
                    return HandleStep::Done(RenderOutcome::CacheHit(entry));
                },
                None => {},
            }
        }
        let method = incoming.ssr_request.method.clone();
        let ticket = RenderTicket { key, method, has_query: incoming.has_query };
        HandleStep::Render { ticket, request: incoming.ssr_request }
    }

    /// Takes in what the engine made of a request. A page that may be cached is
    /// stored.
    pub fn finish(
        &mut self,
        ticket: RenderTicket,
        rendered: Result<SsrResponse, EngineError>,
    ) -> (r: RenderOutcome)
        ensures
            final(self).the_engine() == old(self).the_engine(),
            final(self).error_page() == old(self).error_page(),
            match rendered {
                Ok(page) => r == RenderOutcome::Rendered(page) && is_cached_after(
                    old(self).entries(),
                    final(self).entries(),
                    ticket@,
                    page@,
                ),
                Err(_) => r is Error && final(self).entries() == old(self).entries(),
            },
    {
        match rendered {
            Ok(page) => {
                if is_cacheable(
                    ticket.method.as_str(),
                    page.status,
                    page.headers.as_slice(),
                    ticket.has_query,
                    page.fetched,
                ) {
                    let now = Instant::now();
                    let entry = CachedEntry {
                        status: page.status,
                        headers: clone_pairs(&page.headers),
                        body: page.body.clone(),
                        cached_at: now,
                    };
                    assert(entry@ == entry_of(page@, now));
                    self.cache.set(ticket.key, entry);
                }
                RenderOutcome::Rendered(page)
            },
            Err(_) => RenderOutcome::Error,
        }
    }

    /// The answer that an outcome is turned into.
    pub fn answer(&self, outcome: RenderOutcome) -> (r: PageAnswer)
        ensures
            r@ == answer_to(outcome, self.error_page()),
            r.status == r@.status && r.body@ == r@.body && r.state == r@.state,
            pairs_view(r.headers@) == r@.headers,
    {
        match outcome {
            RenderOutcome::CacheHit(entry) => PageAnswer {
                status: status_or_500(entry.status),
                headers: clone_pairs(&entry.headers),
                body: entry.body.clone(),
                state: Some(CacheState::Hit),
            },
            RenderOutcome::Rendered(page) => PageAnswer {
                status: status_or_500(page.status),
                headers: page.headers,
                body: page.body,
                state: Some(CacheState::Miss),
            },
            RenderOutcome::Error => {
                let mut headers: Vec<(String, String)> = Vec::new();
                headers.push(("content-type".to_string(), "text/html; charset=utf-8".to_string()));
                assert(pairs_view(headers@) =~= seq![
                    ("content-type"@, "text/html; charset=utf-8"@),
                ]);
                PageAnswer { status: 500, headers, body: self.error_html(), state: None }
            },
        }
    }
}

/// The target that a path and a query make, where there is a query.
pub open spec fn target_of(path: Seq<char>, query: Option<Seq<char>>) -> Seq<char> {
    match query {
        Some(text) => path + "?"@ + text,
        None => path,
    }
}

/// The target that a path and a query make, where there is a query.
pub fn join_target(path: &str, query: Option<&str>) -> (r: String)
    ensures
        r@ == target_of(path@, optional_str(query)),
{
    let mut out = path.to_string();
    match query {
        Some(text) => {
            out.append("?");
            out.append(text);
        },
        None => {},
    }
    out
}

/// `http::StatusCode::from_u16`: it takes the numbers from 100 to 999.
#[verifier::external_body]
fn is_status_code(status: u16) -> (r: bool)
    ensures
        r == (100 <= status <= 999),
{
    http::StatusCode::from_u16(status).is_ok()
}

/// The status code of an answer: that of the page, or 500 where it is none.
pub open spec fn status_used(status: u16) -> u16 {
    if 100 <= status <= 999 {
        status
    } else {
        500
    }
}

/// The status code of an answer: that of the page, or 500 where it is none.
pub fn status_or_500(status: u16) -> (r: u16)
    ensures
        r == status_used(status),
{
    if is_status_code(status) {
        status
    } else {
        500
    }
}

/// An answer to a request for a page, for a web framework to send.
#[derive(Debug)]
pub struct PageAnswer {
    /// The status code.
    pub status: u16,
    /// The header fields of the page.
    pub headers: Vec<(String, String)>,
    /// The page.
    pub body: String,
    /// Whether the page was in the cache. An answer that reports a failure says
    /// nothing of it.
    pub state: Option<CacheState>,
}

/// An answer as mathematical data.
pub struct AnswerView {
    /// The status code.
    pub status: u16,
    /// The header fields of the page.
    pub headers: Seq<(Seq<char>, Seq<char>)>,
    /// The page.
    pub body: Seq<char>,
    /// Whether the page was in the cache.
    pub state: Option<CacheState>,
}

impl View for PageAnswer {
    type V = AnswerView;

    open spec fn view(&self) -> AnswerView {
        AnswerView {
            status: self.status,
            headers: pairs_view(self.headers@),
            body: self.body@,
            state: self.state,
        }
    }
}

/// The answer that an outcome is turned into.
pub open spec fn answer_to(outcome: RenderOutcome, error_page: Seq<char>) -> AnswerView {
    match outcome {
        RenderOutcome::CacheHit(entry) => AnswerView {
            status: status_used(entry.status),
            headers: pairs_view(entry.headers@),
            body: entry.body@,
            state: Some(CacheState::Hit),
        },
        RenderOutcome::Rendered(page) => AnswerView {
            status: status_used(page.status),
            headers: pairs_view(page.headers@),
            body: page.body@,
            state: Some(CacheState::Miss),
        },
        RenderOutcome::Error => AnswerView {
            status: 500,
            headers: seq![("content-type"@, "text/html; charset=utf-8"@)],
            body: error_page,
            state: None,
        },
    }
}

/// The body of a request as text: nothing where it could not be read, is longer
/// than [`MAX_BODY_SIZE`], or is no UTF-8.
pub fn body_text(body: Option<Vec<u8>>) -> (r: Option<String>)
    ensures
        match r {
            Some(text) => body matches Some(bytes) && bytes@.len() <= MAX_BODY_SIZE && valid_utf8(
                bytes@,
            ) && text@ == decode_utf8(bytes@),
            None => body matches Some(bytes) ==> bytes@.len() > MAX_BODY_SIZE || !valid_utf8(
                bytes@,
            ),
        },
{
    match body {
        Some(bytes) => if bytes.len() > MAX_BODY_SIZE {
            None
        } else {
            match String::from_utf8(bytes) {
                Ok(text) => Some(text),
                Err(_) => None,
            }
        },
        None => None,
    }
}

/// The body of a request as text: nothing where it is empty or no UTF-8.
pub fn nonempty_body_text(bytes: Vec<u8>) -> (r: Option<String>)
    ensures
        match r {
            Some(text) => bytes@.len() > 0 && valid_utf8(bytes@) && text@ == decode_utf8(bytes@),
            None => bytes@.len() == 0 || !valid_utf8(bytes@),
        },
{
    if bytes.len() == 0 {
        None
    } else {
        match String::from_utf8(bytes) {
            Ok(text) => Some(text),
            Err(_) => None,
        }
    }
}

/// Pages of different methods or different paths never share a place in the
/// cache. No method holds a colon.
pub proof fn law_keys_are_distinct(
    method: Seq<char>,
    path: Seq<char>,
    other_method: Seq<char>,
    other_path: Seq<char>,
)
    requires
        !method.contains(':'),
        !other_method.contains(':'),
    ensures
        cache_key(method, path) == cache_key(other_method, other_path) <==> method == other_method
            && path == other_path,
{
    let a = cache_key(method, path);
    let b = cache_key(other_method, other_path);
    if a == b {
        let n = method.len() as int;
        let m = other_method.len() as int;
        assert(a[n] == ':' && b[m] == ':');
        if n < m {
            assert(other_method[n] == b[n]);
        } else if m < n {
            assert(method[m] == a[m]);
        }
        assert(method =~= a.take(n));
        assert(other_method =~= b.take(m));
        assert(path =~= a.skip(n + 1));
        assert(other_path =~= b.skip(m + 1));
    }
}

/// A page that was rendered and may be cached is found in the cache by the next
/// request for it, with the same status, header fields and body.
pub proof fn law_hit_after_render(
    before: Seq<(Seq<char>, EntryView)>,
    after: Seq<(Seq<char>, EntryView)>,
    ticket: TicketView,
    page: ResponseView,
)
    requires
        cache_ok(before),
        is_cached_after(before, after, ticket, page),
        may_cache(ticket, page),
    ensures
        cached(after, ticket.key) matches Some(entry) && entry.status == page.status
            && entry.headers == page.headers && entry.body == page.body,
{
    let t = choose|t: Instant| after == stored(before, ticket.key, #[trigger] entry_of(page, t));
    law_get_after_set(before, ticket.key, entry_of(page, t));
}

/// A page that comes from the cache is answered as it was when it was rendered,
/// but for what the answer says of the cache.
pub proof fn law_hit_answers_like_miss(
    entry: Arc<CachedEntry>,
    page: SsrResponse,
    error_page: Seq<char>,
)
    requires
        (*entry)@ == entry_of(page@, entry.cached_at),
    ensures
        answer_to(RenderOutcome::CacheHit(entry), error_page) == (AnswerView {
            state: Some(CacheState::Hit),
            ..answer_to(RenderOutcome::Rendered(page), error_page)
        }),
        answer_to(RenderOutcome::Rendered(page), error_page).state == Some(CacheState::Miss),
{
    assert((*entry)@.status == page.status);
    assert((*entry)@.headers == pairs_view(page.headers@));
    assert((*entry)@.body == page.body@);
}

/// A page that fetched anything while it was rendered is never cached.
pub proof fn law_fetching_page_is_not_cached(
    url: Seq<char>,
    fetches: Seq<Fetch>,
    ticket: TicketView,
    page: ResponseView,
)
    requires
        fetches.len() > 0,
        page.fetched == after_fetches(begun(url), fetches).fetched,
    ensures
        !may_cache(ticket, page),
{
    law_fetched_is_exact(url, fetches);
}

/// A page that may not be cached leaves the cache as it was: what answers a
/// request with a query or any other method than `GET`, sets a cookie, has
/// another status than 200 or fetched something.
pub proof fn law_no_trace_of_uncacheable(
    before: Seq<(Seq<char>, EntryView)>,
    after: Seq<(Seq<char>, EntryView)>,
    ticket: TicketView,
    page: ResponseView,
)
    requires
        is_cached_after(before, after, ticket, page),
        ticket.has_query || ticket.method != "GET"@ || page.status != 200 || page.fetched
            || crate::cache::sets_cookie(page.headers),
    ensures
        after == before,
{
}

/// The ticket of a request holds its whole method and its whole path: its key is
/// the one, a colon and the other.
pub proof fn law_ticket_names_the_whole_request(incoming: IncomingRequest)
    ensures
        ticket_of(incoming).key == incoming.ssr_request.method@ + seq![':'] + incoming.path@,
        ticket_of(incoming).method == incoming.ssr_request.method@,
        ticket_of(incoming).has_query == incoming.has_query,
{
    assert(ticket_of(incoming).key =~= incoming.ssr_request.method@ + seq![':'] + incoming.path@);
}

/// Two requests have the same place in the cache exactly when their methods and
/// their whole paths are the same. No method holds a colon.
pub proof fn law_requests_share_a_key_only_if_alike(a: IncomingRequest, b: IncomingRequest)
    requires
        !a.ssr_request.method@.contains(':'),
        !b.ssr_request.method@.contains(':'),
    ensures
        ticket_of(a).key == ticket_of(b).key <==> a.ssr_request.method@ == b.ssr_request.method@
            && a.path@ == b.path@,
{
    law_ticket_names_the_whole_request(a);
    law_ticket_names_the_whole_request(b);
    law_keys_are_distinct(a.ssr_request.method@, a.path@, b.ssr_request.method@, b.path@);
    assert(cache_key(a.ssr_request.method@, a.path@) =~= ticket_of(a).key);
    assert(cache_key(b.ssr_request.method@, b.path@) =~= ticket_of(b).key);
}

/// A request never gets the page of another: once a page is rendered, a request
/// with another path or another method finds nothing in the cache that it would
/// not have found before.
pub proof fn law_pages_are_not_mixed_up(
    before: Seq<(Seq<char>, EntryView)>,
    after: Seq<(Seq<char>, EntryView)>,
    first: IncomingRequest,
    page: ResponseView,
    second: IncomingRequest,
)
    requires
        cache_ok(before),
        is_cached_after(before, after, ticket_of(first), page),
        !first.ssr_request.method@.contains(':'),
        !second.ssr_request.method@.contains(':'),
        first.ssr_request.method@ != second.ssr_request.method@ || first.path@ != second.path@,
    ensures
        cached(after, ticket_of(second).key) is Some ==> cached(after, ticket_of(second).key)
            == cached(before, ticket_of(second).key),
{
    law_requests_share_a_key_only_if_alike(first, second);
    if may_cache(ticket_of(first), page) {
        let key = ticket_of(first).key;
        let t = choose|t: Instant| after == stored(before, key, #[trigger] entry_of(page, t));
        law_set_invents_nothing(before, key, entry_of(page, t), ticket_of(second).key);
    }
}

/// Once the page of a request may be cached and was rendered, the next request
/// with the same method and path finds that page: its status, its header fields
/// and its body. Which pages may be cached depends on nothing but the method and
/// the query of the request, and the status, the cookies and the fetches of the
/// page.
pub proof fn law_cached_page_is_found_again(
    before: Seq<(Seq<char>, EntryView)>,
    after: Seq<(Seq<char>, EntryView)>,
    first: IncomingRequest,
    page: ResponseView,
    second: IncomingRequest,
)
    requires
        cache_ok(before),
        is_cached_after(before, after, ticket_of(first), page),
        first.ssr_request.method@ == "GET"@,
        !first.has_query,
        page.status == 200,
        !page.fetched,
        forall|i: int|
            0 <= i < page.headers.len() ==> crate::text::ascii_lowercase(
                (#[trigger] page.headers[i]).0,
            ) != "set-cookie"@,
        second.ssr_request.method@ == "GET"@,
        second.path@ == first.path@,
    ensures
        cached(after, ticket_of(second).key) matches Some(entry) && entry.status == page.status
            && entry.headers == page.headers && entry.body == page.body,
{
    law_ticket_names_the_whole_request(first);
    law_ticket_names_the_whole_request(second);
    law_cacheable_exactly("GET"@, page.status, page.headers, false, page.fetched);
    law_hit_after_render(before, after, ticket_of(first), page);
}

/// An answer carries the page just as it was rendered or cached: its header fields
/// and its body unchanged, its status unless that is no status code, and whether
/// it came from the cache. A failure is answered with the error page.
pub proof fn law_answers_carry_the_page(
    page: SsrResponse,
    entry: Arc<CachedEntry>,
    error_page: Seq<char>,
)
    ensures
        ({
            let r = answer_to(RenderOutcome::Rendered(page), error_page);
            &&& r.body == page.body@
            &&& r.headers == pairs_view(page.headers@)
            &&& 100 <= page.status <= 999 ==> r.status == page.status
            &&& !(100 <= page.status <= 999) ==> r.status == 500
            &&& r.state == Some(CacheState::Miss)
        }),
        ({
            let r = answer_to(RenderOutcome::CacheHit(entry), error_page);
            &&& r.body == entry.body@
            &&& r.headers == pairs_view(entry.headers@)
            &&& 100 <= entry.status <= 999 ==> r.status == entry.status
            &&& !(100 <= entry.status <= 999) ==> r.status == 500
            &&& r.state == Some(CacheState::Hit)
        }),
        ({
            let r = answer_to(RenderOutcome::Error, error_page);
            &&& r.body == error_page
            &&& r.headers == seq![("content-type"@, "text/html; charset=utf-8"@)]
            &&& r.status == 500
            &&& r.state is None
        }),
{
}

/// The target that a path and a query make holds both: the path up to the question
/// mark, and the query behind it. Without a query it is the path.
pub proof fn law_target_holds_path_and_query(path: Seq<char>, query: Seq<char>)
    ensures
        target_of(path, None) == path,
        target_of(path, Some(query)).len() == path.len() + 1 + query.len(),
        target_of(path, Some(query)).take(path.len() as int) == path,
        target_of(path, Some(query))[path.len() as int] == '?',
        target_of(path, Some(query)).skip((path.len() + 1) as int) == query,
{
    reveal_strlit("?");
    let t = target_of(path, Some(query));
    assert(t.take(path.len() as int) =~= path);
    assert(t.skip((path.len() + 1) as int) =~= query);
}

} // verus!
