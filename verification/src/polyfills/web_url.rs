//! `URL`: the components of a URL, as a page reads them.

use crate::text::{chars_of, decimal, decimal_of};
use crate::url_parts::{optional_str, resolve_url, resolved_url, UrlParts, UrlView};
use vstd::prelude::*;

verus! {

/// Why a URL was not made.
#[derive(Debug, Clone, Copy, PartialEq, Eq, Structural)]
pub enum JsUrlError {
    /// The string is no URL.
    Invalid,
    /// The base is no URL.
    InvalidBase,
    /// The string cannot be resolved against the base.
    InvalidWithBase,
}

impl JsUrlError {
    /// The message that the JavaScript exception carries.
    pub fn message(&self) -> (r: String)
        ensures
            r@ == (match *self {
                JsUrlError::Invalid => "Invalid URL"@,
                JsUrlError::InvalidBase => "Invalid base URL"@,
                JsUrlError::InvalidWithBase => "Invalid URL with base"@,
            }),
    {
        match *self {
            JsUrlError::Invalid => "Invalid URL".to_string(),
            JsUrlError::InvalidBase => "Invalid base URL".to_string(),
            JsUrlError::InvalidWithBase => "Invalid URL with base".to_string(),
        }
    }
}

/// The components of a URL.
pub struct JsUrl {
    protocol: String,
    hostname: String,
    port: String,
    host: String,
    origin: String,
    pathname: String,
    search: String,
    hash: String,
    href: String,
}

/// The components of a URL as mathematical data.
pub struct JsUrlView {
    /// The scheme and a colon.
    pub protocol: Seq<char>,
    /// The host without its port.
    pub hostname: Seq<char>,
    /// The port, empty where it is the usual one.
    pub port: Seq<char>,
    /// The host with its port.
    pub host: Seq<char>,
    /// The scheme and the host.
    pub origin: Seq<char>,
    /// The path.
    pub pathname: Seq<char>,
    /// The query with its question mark, empty where there is none.
    pub search: Seq<char>,
    /// The fragment with its number sign, empty where there is none.
    pub hash: Seq<char>,
    /// The whole URL.
    pub href: Seq<char>,
}

impl View for JsUrl {
    type V = JsUrlView;

    closed spec fn view(&self) -> JsUrlView {
        JsUrlView {
            protocol: self.protocol@,
            hostname: self.hostname@,
            port: self.port@,
            host: self.host@,
            origin: self.origin@,
            pathname: self.pathname@,
            search: self.search@,
            hash: self.hash@,
            href: self.href@,
        }
    }
}

/// An optional component after its mark, empty where there is none.
pub open spec fn marked(mark: char, part: Option<Seq<char>>) -> Seq<char> {
    match part {
        Some(text) => seq![mark] + text,
        None => seq![],
    }
}

/// The components of a parsed URL.
pub open spec fn components(u: UrlView) -> JsUrlView {
    let hostname = match u.hostname {
        Some(name) => name,
        None => seq![],
    };
    let port = match u.port {
        Some(n) => decimal(n as nat),
        None => seq![],
    };
    let host = if port.len() == 0 {
        hostname
    } else {
        hostname.push(':') + port
    };
    JsUrlView {
        protocol: u.scheme.push(':'),
        hostname,
        port,
        host,
        origin: u.scheme + seq![':', '/', '/'] + host,
        pathname: u.path,
        search: marked('?', u.query),
        hash: marked('#', u.fragment),
        href: u.href,
    }
}

/// The string as a URL of the local host, for one that is no URL by itself.
pub open spec fn local_url(input: Seq<char>) -> Seq<char> {
    if input.len() > 0 && input[0] == '/' {
        "http://localhost"@ + input
    } else {
        "http://localhost/"@ + input
    }
}

/// What a string is read as: itself where it is a URL, else a URL of the local host.
pub open spec fn flexible_text(input: Seq<char>) -> Seq<char> {
    if resolved_url(None, input) is Some {
        input
    } else {
        local_url(input)
    }
}

/// What `new URL(url, base)` gives.
pub open spec fn url_outcome(url: Seq<char>, base: Option<Seq<char>>) -> Result<
    JsUrlView,
    JsUrlError,
> {
    match base {
        None => match resolved_url(None, flexible_text(url)) {
            Some(u) => Ok(components(u)),
            None => Err(JsUrlError::Invalid),
        },
        Some(b) => if resolved_url(None, flexible_text(b)) is None {
            Err(JsUrlError::InvalidBase)
        } else {
            match resolved_url(Some(flexible_text(b)), url) {
                Some(u) => Ok(components(u)),
                None => Err(JsUrlError::InvalidWithBase),
            }
        },
    }
}

/// The string as a URL of the local host.
pub fn localized(input: &str) -> (r: String)
    ensures
        r@ == local_url(input@),
{
    let chars = chars_of(input);
    let mut text = if chars.len() > 0 && chars[0] == '/' {
        "http://localhost".to_string()
    } else {
        "http://localhost/".to_string()
    };
    text.append(input);
    text
}

/// An optional component after its mark.
fn with_mark(mark: char, part: Option<String>) -> (r: String)
    ensures
        r@ == marked(
            mark,
            match part {
                Some(text) => Some(text@),
                None => None,
            },
        ),
{
    let mut out = String::new();
    match part {
        Some(text) => {
            out.push(mark);
            out.append(text.as_str());
            assert(out@ =~= seq![mark] + text@);
        },
        None => {
            assert(out@ =~= seq![]);
        },
    }
    out
}

/// Decimal digits are never empty.
proof fn lemma_decimal_nonempty(n: nat)
    ensures
        decimal(n).len() > 0,
{
}

impl JsUrl {
    /// Reads a string as a URL, or else as a path of the local host: what it is
    /// read as, and the parts of that.
    pub fn parse_flexible(input: &str) -> (r: Option<(String, UrlParts)>)
        ensures
            match r {
                Some((text, parts)) => text@ == flexible_text(input@) && resolved_url(
                    None,
                    flexible_text(input@),
                ) == Some(parts@),
                None => resolved_url(None, flexible_text(input@)) is None,
            },
    {
        match resolve_url(None, input) {
            Some(parts) => Some((input.to_string(), parts)),
            None => {
                let text = localized(input);
                match resolve_url(None, text.as_str()) {
                    Some(parts) => Some((text, parts)),
                    None => None,
                }
            },
        }
    }

    /// The components of a parsed URL.
    pub fn from_url(url: UrlParts) -> (r: Self)
        ensures
            r@ == components(url@),
    {
        let hostname = match url.hostname {
            Some(name) => name,
            None => String::new(),
        };
        let mut host = hostname.clone();
        let port = match url.port {
            Some(n) => {
                let text = decimal_of(n as u64);
                proof {
                    lemma_decimal_nonempty(n as nat);
                }
                host.push(':');
                host.append(text.as_str());
                text
            },
            None => String::new(),
        };
        proof {
            reveal_strlit("://");
            assert("://"@ =~= seq![':', '/', '/']);
            assert(hostname@ =~= components(url@).hostname);
            assert(port@ =~= components(url@).port);
        }
        let mut origin = url.scheme.clone();
        origin.append("://");
        origin.append(host.as_str());
        let mut protocol = url.scheme;
        protocol.push(':');
        JsUrl {
            protocol,
            hostname,
            port,
            host,
            origin,
            pathname: url.path,
            search: with_mark('?', url.query),
            hash: with_mark('#', url.fragment),
            href: url.href,
        }
    }

    /// `new URL(url, base)`. A string that is no URL is read as a path of the
    /// local host, and so is a base that is none.
    pub fn new(url_str: &str, base: Option<&str>) -> (r: Result<Self, JsUrlError>)
        ensures
            match r {
                Ok(u) => url_outcome(url_str@, optional_str(base)) == Ok::<_, JsUrlError>(u@),
                Err(e) => url_outcome(url_str@, optional_str(base)) == Err::<JsUrlView, _>(e),
            },
            base matches Some(b) ==> match r {
                Ok(u) => url_outcome(url_str@, Some(b@)) == Ok::<_, JsUrlError>(u@),
                Err(e) => url_outcome(url_str@, Some(b@)) == Err::<JsUrlView, _>(e),
            },
    {
        match base {
            None => match Self::parse_flexible(url_str) {
                Some((_, parts)) => Ok(Self::from_url(parts)),
                None => Err(JsUrlError::Invalid),
            },
            Some(base_str) => match Self::parse_flexible(base_str) {
                Some((text, _)) => match resolve_url(Some(text.as_str()), url_str) {
                    Some(parts) => Ok(Self::from_url(parts)),
                    None => Err(JsUrlError::InvalidWithBase),
                },
                None => Err(JsUrlError::InvalidBase),
            },
        }
    }

    /// `protocol`.
    pub fn get_protocol(&self) -> (r: String)
        ensures
            r@ == self@.protocol,
    {
        self.protocol.clone()
    }

    /// `hostname`.
    pub fn get_hostname(&self) -> (r: String)
        ensures
            r@ == self@.hostname,
    {
        self.hostname.clone()
    }

    /// `port`.
    pub fn get_port(&self) -> (r: String)
        ensures
            r@ == self@.port,
    {
        self.port.clone()
    }

    /// `host`.
    pub fn get_host(&self) -> (r: String)
        ensures
            r@ == self@.host,
    {
        self.host.clone()
    }

    /// `origin`.
    pub fn get_origin(&self) -> (r: String)
        ensures
            r@ == self@.origin,
    {
        self.origin.clone()
    }

    /// `pathname`.
    pub fn get_pathname(&self) -> (r: String)
        ensures
            r@ == self@.pathname,
    {
        self.pathname.clone()
    }

    /// `search`.
    pub fn get_search(&self) -> (r: String)
        ensures
            r@ == self@.search,
    {
        self.search.clone()
    }

    /// `hash`.
    pub fn get_hash(&self) -> (r: String)
        ensures
            r@ == self@.hash,
    {
        self.hash.clone()
    }

    /// `href`.
    pub fn get_href(&self) -> (r: String)
        ensures
            r@ == self@.href,
    {
        self.href.clone()
    }

    /// `toString()`: the whole URL.
    pub fn js_to_string(&self) -> (r: String)
        ensures
            r@ == self@.href,
    {
        self.href.clone()
    }

    /// `toJSON()`: the whole URL.
    pub fn js_to_json(&self) -> (r: String)
        ensures
            r@ == self@.href,
    {
        self.href.clone()
    }
}

/// The origin of a URL is its protocol, two slashes and its host; the host is
/// the host name, with a colon and the port where there is one.
pub proof fn law_origin_and_host(u: UrlView)
    ensures
        components(u).origin == components(u).protocol + seq!['/', '/'] + components(u).host,
        components(u).port.len() == 0 ==> components(u).host == components(u).hostname,
        components(u).port.len() > 0 ==> components(u).host == components(u).hostname + seq![':']
            + components(u).port,
        components(u).port.len() == 0 <==> u.port is None,
{
    let c = components(u);
    assert(c.origin =~= c.protocol + seq!['/', '/'] + c.host);
    if let Some(n) = u.port {
        lemma_decimal_nonempty(n as nat);
        assert(c.host =~= c.hostname + seq![':'] + c.port);
    }
}

/// The query that `searchParams` reads is the one of the URL.
pub proof fn law_search_params_of_url(u: UrlView)
    ensures
        super::search_params::parsed_query(components(u).search) == (match u.query {
            Some(q) => super::search_params::parsed_query(q),
            None => seq![],
        }),
{
    if let Some(q) = u.query {
        let s = seq!['?'] + q;
        assert(s.skip(1) =~= q);
    }
}

/// The components of a parsed URL are its parts, each whole: the path and the whole
/// URL as they are, the scheme with its colon, the host name, the port in decimal,
/// and the query and the fragment behind their marks, where there are any.
pub proof fn law_components(u: UrlView)
    ensures
        components(u).href == u.href,
        components(u).pathname == u.path,
        components(u).protocol == u.scheme + seq![':'],
        components(u).hostname == (match u.hostname {
            Some(name) => name,
            None => seq![],
        }),
        components(u).port == (match u.port {
            Some(n) => decimal(n as nat),
            None => seq![],
        }),
        u.query is None ==> components(u).search == Seq::<char>::empty(),
        u.query matches Some(query) ==> components(u).search == seq!['?'] + query,
        u.fragment is None ==> components(u).hash == Seq::<char>::empty(),
        u.fragment matches Some(fragment) ==> components(u).hash == seq!['#'] + fragment,
{
    assert(components(u).protocol =~= u.scheme + seq![':']);
}

/// Where a base is given and is a URL by itself, the outcome for every string is
/// that string resolved against the base, those that begin with a slash among them:
/// its components, or a complaint exactly where it cannot be resolved.
pub proof fn law_url_is_resolved_against_its_base(url: Seq<char>, base: Seq<char>)
    requires
        resolved_url(None, base) is Some,
    ensures
        resolved_url(Some(base), url) matches Some(u) ==> url_outcome(url, Some(base)) == Ok::<
            JsUrlView,
            JsUrlError,
        >(components(u)),
        resolved_url(Some(base), url) is None ==> url_outcome(url, Some(base)) == Err::<
            JsUrlView,
            JsUrlError,
        >(JsUrlError::InvalidWithBase),
{
}

/// A base that is no URL by itself is read as a path of the local host, with a
/// slash put in front where it has none, and the string is resolved against that.
/// Where that is no URL either, the base is complained of, whatever the string is.
pub proof fn law_other_base_is_local(url: Seq<char>, base: Seq<char>)
    requires
        resolved_url(None, base) is None,
    ensures
        ({
            let local = if base.len() > 0 && base[0] == '/' {
                "http://localhost"@ + base
            } else {
                "http://localhost/"@ + base
            };
            &&& resolved_url(None, local) is None ==> url_outcome(url, Some(base)) == Err::<
                JsUrlView,
                JsUrlError,
            >(JsUrlError::InvalidBase)
            &&& resolved_url(None, local) is Some ==> match resolved_url(Some(local), url) {
                Some(u) => url_outcome(url, Some(base)) == Ok::<JsUrlView, JsUrlError>(
                    components(u),
                ),
                None => url_outcome(url, Some(base)) == Err::<JsUrlView, JsUrlError>(
                    JsUrlError::InvalidWithBase,
                ),
            }
        }),
{
}

/// Without a base, a string that is a URL gives the components of that URL, and any
/// other string those of a path of the local host, with a slash put in front where
/// it has none.
pub proof fn law_url_without_base(url: Seq<char>)
    ensures
        resolved_url(None, url) matches Some(u) ==> url_outcome(url, None) == Ok::<
            JsUrlView,
            JsUrlError,
        >(components(u)),
        resolved_url(None, url) is None ==> ({
            let local = if url.len() > 0 && url[0] == '/' {
                "http://localhost"@ + url
            } else {
                "http://localhost/"@ + url
            };
            match resolved_url(None, local) {
                Some(u) => url_outcome(url, None) == Ok::<JsUrlView, JsUrlError>(components(u)),
                None => url_outcome(url, None) == Err::<JsUrlView, JsUrlError>(
                    JsUrlError::Invalid,
                ),
            }
        }),
{
}

/// The base decides: two bases that a string resolves differently against give
/// different URLs.
pub proof fn law_bases_are_told_apart(url: Seq<char>, a: Seq<char>, b: Seq<char>)
    requires
        resolved_url(None, a) is Some && resolved_url(None, b) is Some,
        resolved_url(Some(a), url) is Some && resolved_url(Some(b), url) is Some,
        resolved_url(Some(a), url)->0.href != resolved_url(Some(b), url)->0.href,
    ensures
        url_outcome(url, Some(a)) != url_outcome(url, Some(b)),
{
    law_url_is_resolved_against_its_base(url, a);
    law_url_is_resolved_against_its_base(url, b);
    law_components(resolved_url(Some(a), url)->0);
    law_components(resolved_url(Some(b), url)->0);
}

} // verus!
