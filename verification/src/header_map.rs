//! Header fields in the `http` crate's map, and as lists of plain values.

use crate::pairs::{replace_named, values_of};
use crate::text::{ascii_lowercase, bytes_of, eq_ignore_ascii_case, pair_view, pairs_view};
use vstd::prelude::*;
use vstd::set_lib::lemma_len_subset;
use vstd::utf8::encode_utf8;

verus! {

/// How many names a map may hold for a further field to be sure of its place.
pub const SAFE_HEADER_NAMES: usize = 6553;

/// The value of a header field, carried and never looked into.
#[verifier::external_type_specification]
#[verifier::external_body]
pub struct ExHeaderValue(http::HeaderValue);

/// The `http` crate's map from header names to one or more values each. What it
/// holds is [`header_entries`].
#[verifier::external_type_specification]
#[verifier::external_body]
#[verifier::reject_recursive_types(T)]
pub struct ExHeaderMap<T>(http::HeaderMap<T>);

/// What a header map holds: the values of each name, in the order in which they
/// were added. Names are in lowercase.
pub uninterp spec fn header_entries(m: http::HeaderMap) -> Map<Seq<char>, Seq<Seq<u8>>>;

/// The characters of which header names are made.
pub open spec fn is_token_char(c: char) -> bool {
    'a' <= c <= 'z' || 'A' <= c <= 'Z' || '0' <= c <= '9' || c == '!' || c == '#' || c == '$' || c
        == '%' || c == '&' || c == '\'' || c == '*' || c == '+' || c == '-' || c == '.' || c == '^'
        || c == '_' || c == '`' || c == '|' || c == '~'
}

/// Whether a string is made of token characters alone, and not empty.
pub open spec fn is_token(s: Seq<char>) -> bool {
    s.len() > 0 && forall|i: int| 0 <= i < s.len() ==> is_token_char(#[trigger] s[i])
}

/// Whether a string can be a header name.
pub open spec fn is_header_name(s: Seq<char>) -> bool {
    is_token(s) && s.len() <= 65535
}

/// Whether bytes can be a header value: no control character but the tab.
pub open spec fn is_header_value(b: Seq<u8>) -> bool {
    forall|i: int| 0 <= i < b.len() ==> (#[trigger] b[i] >= 32 && b[i] != 127) || b[i] == 9
}

/// Whether a header value is text: visible ASCII characters, spaces and tabs.
pub open spec fn is_header_text(b: Seq<u8>) -> bool {
    forall|i: int| 0 <= i < b.len() ==> (32 <= #[trigger] b[i] && b[i] < 127) || b[i] == 9
}

/// The characters of a header value that is text.
pub open spec fn header_text(b: Seq<u8>) -> Seq<char> {
    Seq::new(b.len(), |i: int| b[i] as char)
}

/// `http::HeaderName::from_str`: it takes the strings of [`is_header_name`] and
/// gives them in lowercase.
#[verifier::external_body]
fn parse_header_name(text: &str) -> (r: Option<String>)
    ensures
        r is Some <==> is_header_name(text@),
        r matches Some(name) ==> name@ == ascii_lowercase(text@),
{
    text.parse::<http::HeaderName>().ok().map(|name| name.as_str().to_string())
}

/// `http::HeaderValue::from_str`: it takes the strings whose bytes are a header
/// value, and keeps the bytes as they are.
#[verifier::external_body]
fn parse_header_value(text: &str) -> (r: Option<Vec<u8>>)
    ensures
        r is Some <==> is_header_value(encode_utf8(text@)),
        r matches Some(value) ==> value@ == encode_utf8(text@),
{
    text.parse::<http::HeaderValue>().ok().map(|value| value.as_bytes().to_vec())
}

/// `http::HeaderValue::to_str`: a value that is text is given as a string.
#[verifier::external_body]
pub(crate) fn header_value_text(value: &[u8]) -> (r: Option<String>)
    ensures
        r is Some <==> is_header_text(value@),
        r matches Some(text) ==> text@ == header_text(value@),
{
    http::HeaderValue::from_bytes(value).ok()?.to_str().ok().map(String::from)
}

/// `http::HeaderMap::new`: an empty map.
#[verifier::external_body]
fn new_header_map() -> (m: http::HeaderMap)
    ensures
        header_entries(m) == no_entries(),
{
    http::HeaderMap::new()
}

/// `http::HeaderMap::try_insert`: the name has this one value and no other. It
/// may fail where the map holds more than [`SAFE_HEADER_NAMES`] names; what it
/// then does to the map is not said.
#[verifier::external_body]
fn insert_field(m: &mut http::HeaderMap, name: &str, value: &[u8]) -> (r: bool)
    requires
        is_header_name(name@),
        is_header_value(value@),
    ensures
        r ==> header_entries(*final(m)) == header_entries(*old(m)).insert(
            ascii_lowercase(name@),
            seq![value@],
        ),
        header_entries(*old(m)).dom().finite() && header_entries(*old(m)).dom().len()
            <= SAFE_HEADER_NAMES ==> r,
{
    match (http::HeaderName::from_bytes(name.as_bytes()), http::HeaderValue::from_bytes(value)) {
        (Ok(name), Ok(value)) => m.try_insert(name, value).is_ok(),
        _ => false,
    }
}

/// `http::HeaderMap::try_append`: the name has one value more, at the end. It
/// may fail where the map holds more than [`SAFE_HEADER_NAMES`] names; what it
/// then does to the map is not said.
#[verifier::external_body]
fn append_field(m: &mut http::HeaderMap, name: &str, value: &[u8]) -> (r: bool)
    requires
        is_header_name(name@),
        is_header_value(value@),
    ensures
        r ==> header_entries(*final(m)) == with_value(
            header_entries(*old(m)),
            ascii_lowercase(name@),
            value@,
        ),
        header_entries(*old(m)).dom().finite() && header_entries(*old(m)).dom().len()
            <= SAFE_HEADER_NAMES ==> r,
{
    match (http::HeaderName::from_bytes(name.as_bytes()), http::HeaderValue::from_bytes(value)) {
        (Ok(name), Ok(value)) => m.try_append(name, value).is_ok(),
        _ => false,
    }
}

/// `http::HeaderMap::iter`: every value with its name. The values of one name
/// come in their order; in which order the names come is not said.
#[verifier::external_body]
pub(crate) fn list_fields(m: &http::HeaderMap) -> (r: Vec<(String, Vec<u8>)>)
    ensures
        forall|name: Seq<char>| #[trigger]
            field_values(fields_view(r@), name) == values_in(header_entries(*m), name),
{
    m.iter().map(|(name, value)| (name.as_str().to_string(), value.as_bytes().to_vec())).collect()
}

/// What an empty map holds.
pub open spec fn no_entries() -> Map<Seq<char>, Seq<Seq<u8>>> {
    Map::empty()
}

/// The values that a map has for a name.
pub open spec fn values_in(e: Map<Seq<char>, Seq<Seq<u8>>>, name: Seq<char>) -> Seq<Seq<u8>> {
    if e.dom().contains(name) {
        e[name]
    } else {
        seq![]
    }
}

/// A map in which a name has one value more.
pub open spec fn with_value(
    e: Map<Seq<char>, Seq<Seq<u8>>>,
    name: Seq<char>,
    value: Seq<u8>,
) -> Map<Seq<char>, Seq<Seq<u8>>> {
    e.insert(name, values_in(e, name).push(value))
}

/// A list of fields as mathematical data.
pub open spec fn fields_view(l: Seq<(String, Vec<u8>)>) -> Seq<(Seq<char>, Seq<u8>)> {
    Seq::new(l.len(), |i: int| (l[i].0@, l[i].1@))
}

/// The values of a name in a list of fields, in order.
pub open spec fn field_values(l: Seq<(Seq<char>, Seq<u8>)>, name: Seq<char>) -> Seq<Seq<u8>>
    decreases l.len(),
{
    if l.len() == 0 {
        seq![]
    } else {
        let before = field_values(l.drop_last(), name);
        if l.last().0 == name {
            before.push(l.last().1)
        } else {
            before
        }
    }
}

/// Whether a pair of strings is a header field.
pub open spec fn is_field(p: (Seq<char>, Seq<char>)) -> bool {
    is_header_name(p.0) && is_header_value(encode_utf8(p.1))
}

/// What inserting pairs in order makes of a map: a pair that is no header field
/// is passed over, and of two with the same name the later one stays.
pub open spec fn with_inserted(
    e: Map<Seq<char>, Seq<Seq<u8>>>,
    l: Seq<(Seq<char>, Seq<char>)>,
) -> Map<Seq<char>, Seq<Seq<u8>>>
    decreases l.len(),
{
    if l.len() == 0 {
        e
    } else {
        let before = with_inserted(e, l.drop_last());
        let p = l.last();
        if is_field(p) {
            before.insert(ascii_lowercase(p.0), seq![encode_utf8(p.1)])
        } else {
            before
        }
    }
}

/// Whether a map is sure of a place for all that it is to hold: it comes to no
/// more than [`SAFE_HEADER_NAMES`] names, however many values they have.
pub open spec fn has_room(e: Map<Seq<char>, Seq<Seq<u8>>>) -> bool {
    e.dom().finite() && e.dom().len() <= SAFE_HEADER_NAMES
}

/// Whether a name is that of the length of a body.
pub open spec fn is_content_length(name: Seq<char>) -> bool {
    ascii_lowercase(name) == ascii_lowercase("content-length"@)
}

/// What adding pairs in order makes of a map: a pair that is no header field is
/// passed over, and a name that occurs twice has two values. The length of the
/// body is passed over too, unless it is to be kept.
pub open spec fn with_appended(
    e: Map<Seq<char>, Seq<Seq<u8>>>,
    l: Seq<(Seq<char>, Seq<char>)>,
    keep_length: bool,
) -> Map<Seq<char>, Seq<Seq<u8>>>
    decreases l.len(),
{
    if l.len() == 0 {
        e
    } else {
        let before = with_appended(e, l.drop_last(), keep_length);
        let p = l.last();
        if (keep_length || !is_content_length(p.0)) && is_field(p) {
            with_value(before, ascii_lowercase(p.0), encode_utf8(p.1))
        } else {
            before
        }
    }
}

/// The last value that is text, if any.
pub open spec fn last_text(values: Seq<Seq<u8>>) -> Seq<Seq<char>>
    decreases values.len(),
{
    if values.len() == 0 {
        seq![]
    } else if is_header_text(values.last()) {
        seq![header_text(values.last())]
    } else {
        last_text(values.drop_last())
    }
}

/// A value as a string, empty where it is no text.
pub open spec fn text_or_empty(value: Seq<u8>) -> Seq<char> {
    if is_header_text(value) {
        header_text(value)
    } else {
        seq![]
    }
}

/// The pairs of a list of fields: a value that is no text is empty.
pub open spec fn fields_as_text(l: Seq<(Seq<char>, Seq<u8>)>) -> Seq<(Seq<char>, Seq<char>)> {
    l.map_values(|f: (Seq<char>, Seq<u8>)| (f.0, text_or_empty(f.1)))
}

/// Whether a page was found in the cache.
#[derive(Debug, Clone, Copy, PartialEq, Eq, Structural)]
pub enum CacheState {
    /// It was.
    Hit,
    /// It was not.
    Miss,
}

impl CacheState {
    /// What the answer says of it.
    pub open spec fn word(self) -> Seq<char> {
        match self {
            CacheState::Hit => "HIT"@,
            CacheState::Miss => "MISS"@,
        }
    }

    /// What the answer says of it.
    pub fn text(self) -> (r: &'static str)
        ensures
            r@ == self.word(),
            is_header_value(encode_utf8(r@)),
    {
        proof {
            reveal_strlit("HIT");
            reveal_strlit("MISS");
            vstd::utf8::is_ascii_chars_encode_utf8("HIT"@);
            vstd::utf8::is_ascii_chars_encode_utf8("MISS"@);
        }
        match self {
            CacheState::Hit => "HIT",
            CacheState::Miss => "MISS",
        }
    }
}

/// What a page makes of the header map of an answer: its own fields are added,
/// and the name `x-ssr-cache` says whether the page came from the cache.
pub open spec fn with_page_fields(
    e: Map<Seq<char>, Seq<Seq<u8>>>,
    l: Seq<(Seq<char>, Seq<char>)>,
    state: CacheState,
) -> Map<Seq<char>, Seq<Seq<u8>>> {
    with_appended(e, l, false).insert("x-ssr-cache"@, seq![encode_utf8(state.word())])
}

/// Whether a header field of a page is left out of the answer: the length of the
/// body, which the server works out itself.
pub fn is_left_out(name: &str) -> (r: bool)
    ensures
        r == is_content_length(name@),
{
    eq_ignore_ascii_case(name, "content-length")
}

/// Inserts pairs into a map, in order. It gives `false` where the map has no room.
pub fn insert_all(m: &mut http::HeaderMap, pairs: &[(String, String)]) -> (r: bool)
    ensures
        r ==> header_entries(*final(m)) == with_inserted(
            header_entries(*old(m)),
            pairs_view(pairs@),
        ),
        has_room(with_inserted(header_entries(*old(m)), pairs_view(pairs@))) ==> r,
{
    let ghost e = header_entries(*m);
    let ghost l = pairs_view(pairs@);
    let mut i: usize = 0;
    assert(l.take(0).len() == 0);
    while i < pairs.len()
        invariant
            i <= pairs@.len(),
            e == header_entries(*old(m)),
            l == pairs_view(pairs@),
            header_entries(*m) == with_inserted(e, l.take(i as int)),
        decreases pairs@.len() - i,
    {
        proof {
            assert(l.take(i + 1).drop_last() =~= l.take(i as int));
            assert(l.take(i + 1).last() == pair_view(pairs@[i as int]));
            lemma_inserted_room(e, l, i as int);
        }
        match (
            parse_header_name(pairs[i].0.as_str()),
            parse_header_value(pairs[i].1.as_str()),
        ) {
            (Some(name), Some(value)) => {
                proof {
                    lemma_lowercase_name(pairs@[i as int].0@);
                }
                if !insert_field(m, name.as_str(), value.as_slice()) {
                    return false;
                }
            },
            _ => {},
        }
        i = i + 1;
    }
    assert(l.take(i as int) =~= l);
    true
}

/// Where all pairs of a list have room in a map, those at its start have.
proof fn lemma_inserted_room(
    e: Map<Seq<char>, Seq<Seq<u8>>>,
    l: Seq<(Seq<char>, Seq<char>)>,
    n: int,
)
    requires
        0 <= n <= l.len(),
    ensures
        with_inserted(e, l.take(n)).dom().subset_of(with_inserted(e, l).dom()),
        has_room(with_inserted(e, l)) ==> has_room(with_inserted(e, l.take(n))),
    decreases l.len(),
{
    if n == l.len() {
        assert(l.take(n) =~= l);
    } else {
        lemma_inserted_room(e, l.drop_last(), n);
        assert(l.drop_last().take(n) =~= l.take(n));
    }
    if has_room(with_inserted(e, l)) {
        lemma_len_subset(with_inserted(e, l.take(n)).dom(), with_inserted(e, l).dom());
    }
}

/// Where all pairs of a list have room in a map, those at its start have.
proof fn lemma_appended_room(
    e: Map<Seq<char>, Seq<Seq<u8>>>,
    l: Seq<(Seq<char>, Seq<char>)>,
    keep_length: bool,
    n: int,
)
    requires
        0 <= n <= l.len(),
    ensures
        with_appended(e, l.take(n), keep_length).dom().subset_of(
            with_appended(e, l, keep_length).dom(),
        ),
        has_room(with_appended(e, l, keep_length)) ==> has_room(
            with_appended(e, l.take(n), keep_length),
        ),
    decreases l.len(),
{
    if n == l.len() {
        assert(l.take(n) =~= l);
    } else {
        lemma_appended_room(e, l.drop_last(), keep_length, n);
        assert(l.drop_last().take(n) =~= l.take(n));
    }
    if has_room(with_appended(e, l, keep_length)) {
        lemma_len_subset(
            with_appended(e, l.take(n), keep_length).dom(),
            with_appended(e, l, keep_length).dom(),
        );
    }
}

/// A header name in lowercase is a header name, and lowercase already.
proof fn lemma_lowercase_name(s: Seq<char>)
    ensures
        is_header_name(s) ==> is_header_name(ascii_lowercase(s)),
        ascii_lowercase(ascii_lowercase(s)) == ascii_lowercase(s),
{
    let t = ascii_lowercase(s);
    if is_header_name(s) {
        assert forall|i: int| 0 <= i < t.len() implies is_token_char(#[trigger] t[i]) by {
            assert(is_token_char(s[i]));
        }
    }
    assert(ascii_lowercase(t) =~= t);
}

/// The header map of a request that a page makes: pairs that are no header
/// fields are passed over, and of two with the same name the later one stays.
/// It gives nothing where they do not fit in a map.
pub fn outgoing_headers(pairs: &[(String, String)]) -> (r: Option<http::HeaderMap>)
    ensures
        r matches Some(m) ==> header_entries(m) == with_inserted(no_entries(), pairs_view(pairs@)),
        has_room(with_inserted(no_entries(), pairs_view(pairs@))) ==> r is Some,
{
    let mut m = new_header_map();
    if insert_all(&mut m, pairs) {
        Some(m)
    } else {
        None
    }
}

/// Adds pairs to a map, in order, with or without the length of the body. It
/// gives `false` where the map has no room.
fn append_all(m: &mut http::HeaderMap, pairs: &[(String, String)], keep_length: bool) -> (r: bool)
    ensures
        r ==> header_entries(*final(m)) == with_appended(
            header_entries(*old(m)),
            pairs_view(pairs@),
            keep_length,
        ),
        has_room(
            with_appended(header_entries(*old(m)), pairs_view(pairs@), keep_length),
        ) ==> r,
{
    let ghost e = header_entries(*m);
    let ghost l = pairs_view(pairs@);
    let mut i: usize = 0;
    assert(l.take(0).len() == 0);
    while i < pairs.len()
        invariant
            i <= pairs@.len(),
            e == header_entries(*old(m)),
            l == pairs_view(pairs@),
            header_entries(*m) == with_appended(e, l.take(i as int), keep_length),
        decreases pairs@.len() - i,
    {
        proof {
            assert(l.take(i + 1).drop_last() =~= l.take(i as int));
            assert(l.take(i + 1).last() == pair_view(pairs@[i as int]));
            lemma_appended_room(e, l, keep_length, i as int);
        }
        if keep_length || !is_left_out(pairs[i].0.as_str()) {
            match (
                parse_header_name(pairs[i].0.as_str()),
                parse_header_value(pairs[i].1.as_str()),
            ) {
                (Some(name), Some(value)) => {
                    proof {
                        lemma_lowercase_name(pairs@[i as int].0@);
                    }
                    if !append_field(m, name.as_str(), value.as_slice()) {
                        return false;
                    }
                },
                _ => {},
            }
        }
        i = i + 1;
    }
    assert(l.take(i as int) =~= l);
    true
}

/// The header map of a request that a page makes where a name that occurs twice
/// has two values: pairs that are no header fields are passed over. It gives
/// nothing where they do not fit in a map.
pub fn repeated_headers(pairs: &[(String, String)]) -> (r: Option<http::HeaderMap>)
    ensures
        r matches Some(m) ==> header_entries(m) == with_appended(
            no_entries(),
            pairs_view(pairs@),
            true,
        ),
        has_room(with_appended(no_entries(), pairs_view(pairs@), true)) ==> r is Some,
{
    let mut m = new_header_map();
    if append_all(&mut m, pairs, true) {
        Some(m)
    } else {
        None
    }
}

/// Writes the header fields of a page, and whether it came from the cache, into
/// the header map of an answer. It gives `false` where the map has no room.
pub fn apply_page_fields(
    m: &mut http::HeaderMap,
    pairs: &[(String, String)],
    state: CacheState,
) -> (r: bool)
    ensures
        r ==> header_entries(*final(m)) == with_page_fields(
            header_entries(*old(m)),
            pairs_view(pairs@),
            state,
        ),
        has_room(
            with_page_fields(header_entries(*old(m)), pairs_view(pairs@), state),
        ) ==> r,
{
    proof {
        let before = with_appended(header_entries(*m), pairs_view(pairs@), false);
        let after = with_page_fields(header_entries(*m), pairs_view(pairs@), state);
        if has_room(after) {
            lemma_len_subset(before.dom(), after.dom());
        }
        reveal_strlit("x-ssr-cache");
        assert(ascii_lowercase("x-ssr-cache"@) =~= "x-ssr-cache"@);
    }
    append_all(m, pairs, false) && insert_field(m, "x-ssr-cache", bytes_of(state.text()).as_slice())
}

/// The header fields of a request as a page sees them: a name has its last value
/// that is text, and no other.
pub fn request_headers(fields: &Vec<(String, Vec<u8>)>) -> (r: Vec<(String, String)>)
    ensures
        forall|name: Seq<char>| #[trigger]
            values_of(pairs_view(r@), name) == last_text(
                field_values(fields_view(fields@), name),
            ),
{
    let ghost l = fields_view(fields@);
    let mut out: Vec<(String, String)> = Vec::new();
    let mut i: usize = 0;
    assert(l.take(0).len() == 0);
    while i < fields.len()
        invariant
            i <= fields@.len(),
            l == fields_view(fields@),
            forall|name: Seq<char>| #[trigger]
                values_of(pairs_view(out@), name) == last_text(
                    field_values(l.take(i as int), name),
                ),
        decreases fields@.len() - i,
    {
        let ghost before = pairs_view(out@);
        let ghost key = fields@[i as int].0@;
        let ghost bytes = fields@[i as int].1@;
        proof {
            assert(l.take(i + 1).drop_last() =~= l.take(i as int));
            assert(l.take(i + 1).last() == (key, bytes));
            assert forall|name: Seq<char>| #[trigger]
                field_values(l.take(i + 1), name) == (if name == key {
                    field_values(l.take(i as int), name).push(bytes)
                } else {
                    field_values(l.take(i as int), name)
                }) by {}
            let v = field_values(l.take(i as int), key);
            assert(v.push(bytes).drop_last() =~= v);
        }
        match header_value_text(fields[i].1.as_slice()) {
            Some(text) => {
                let (mut replaced, found) = replace_named(
                    out,
                    fields[i].0.as_str(),
                    text.as_str(),
                );
                let ghost single = pairs_view(replaced@);
                if !found {
                    replaced.push((fields[i].0.clone(), text));
                    proof {
                        assert(pairs_view(replaced@) =~= single.push((key, text@)));
                    }
                }
                out = replaced;
                proof {
                    assert forall|name: Seq<char>| #[trigger]
                        values_of(pairs_view(out@), name) == last_text(
                            field_values(l.take(i + 1), name),
                        ) by {
                        assert(values_of(before, name) == last_text(
                            field_values(l.take(i as int), name),
                        ));
                        crate::pairs::lemma_with_single(before, key, text@, name);
                        crate::pairs::lemma_push_values(single, key, text@, name);
                        crate::pairs::lemma_values_iff_name(before, key);
                        if name == key && !found {
                            assert(Seq::<Seq<char>>::empty().push(text@) =~= seq![text@]);
                        }
                    }
                }
            },
            None => {
                proof {
                    assert forall|name: Seq<char>| #[trigger]
                        values_of(pairs_view(out@), name) == last_text(
                            field_values(l.take(i + 1), name),
                        ) by {
                        assert(values_of(before, name) == last_text(
                            field_values(l.take(i as int), name),
                        ));
                    }
                }
            },
        }
        i = i + 1;
    }
    assert(l.take(i as int) =~= l);
    out
}

/// The header fields of an answer: a value that is no text is empty.
pub fn response_headers(fields: &Vec<(String, Vec<u8>)>) -> (r: Vec<(String, String)>)
    ensures
        pairs_view(r@) == fields_as_text(fields_view(fields@)),
{
    let mut out: Vec<(String, String)> = Vec::new();
    let mut i: usize = 0;
    while i < fields.len()
        invariant
            i <= fields@.len(),
            out@.len() == i,
            forall|j: int|
                0 <= j < i ==> pair_view(#[trigger] out@[j]) == (
                    fields@[j].0@,
                    text_or_empty(fields@[j].1@),
                ),
        decreases fields@.len() - i,
    {
        let text = match header_value_text(fields[i].1.as_slice()) {
            Some(text) => text,
            None => String::new(),
        };
        proof {
            assert(text@ =~= text_or_empty(fields@[i as int].1@));
        }
        out.push((fields[i].0.clone(), text));
        i = i + 1;
    }
    assert(pairs_view(out@) =~= fields_as_text(fields_view(fields@)));
    out
}

/// The header fields of a request, read from a map.
pub fn request_headers_of(m: &http::HeaderMap) -> (r: Vec<(String, String)>)
    ensures
        forall|name: Seq<char>| #[trigger]
            values_of(pairs_view(r@), name) == last_text(values_in(header_entries(*m), name)),
{
    let fields = list_fields(m);
    let r = request_headers(&fields);
    proof {
        assert forall|name: Seq<char>| #[trigger]
            values_of(pairs_view(r@), name) == last_text(
                values_in(header_entries(*m), name),
            ) by {
            assert(field_values(fields_view(fields@), name) == values_in(
                header_entries(*m),
                name,
            ));
        }
    }
    r
}

/// The header fields of an answer, read from a map.
pub fn response_headers_of(m: &http::HeaderMap) -> (r: Vec<(String, String)>)
    ensures
        forall|name: Seq<char>| #[trigger]
            values_of(pairs_view(r@), name) == values_in(header_entries(*m), name).map_values(
                |value: Seq<u8>| text_or_empty(value),
            ),
{
    let fields = list_fields(m);
    let r = response_headers(&fields);
    proof {
        let f = |value: Seq<u8>| text_or_empty(value);
        assert forall|name: Seq<char>| #[trigger]
            values_of(pairs_view(r@), name) == values_in(header_entries(*m), name).map_values(
                f,
            ) by {
            lemma_values_as_text(fields_view(fields@), name);
            assert(field_values(fields_view(fields@), name) == values_in(
                header_entries(*m),
                name,
            ));
        }
    }
    r
}

proof fn lemma_values_as_text(l: Seq<(Seq<char>, Seq<u8>)>, name: Seq<char>)
    ensures
        values_of(fields_as_text(l), name) == field_values(l, name).map_values(
            |value: Seq<u8>| text_or_empty(value),
        ),
    decreases l.len(),
{
    let f = |value: Seq<u8>| text_or_empty(value);
    if l.len() == 0 {
        assert(fields_as_text(l) =~= seq![]);
        assert(field_values(l, name).map_values(f) =~= seq![]);
    } else {
        lemma_values_as_text(l.drop_last(), name);
        assert(fields_as_text(l).drop_last() =~= fields_as_text(l.drop_last()));
        let before = field_values(l.drop_last(), name);
        assert(before.push(l.last().1).map_values(f) =~= before.map_values(f).push(f(l.last().1)));
    }
}

/// The values that header fields add to a name, with or without the length of
/// the body.
pub open spec fn added_values(
    l: Seq<(Seq<char>, Seq<char>)>,
    name: Seq<char>,
    keep_length: bool,
) -> Seq<Seq<u8>>
    decreases l.len(),
{
    if l.len() == 0 {
        seq![]
    } else {
        let before = added_values(l.drop_last(), name, keep_length);
        let p = l.last();
        if (keep_length || !is_content_length(p.0)) && is_field(p) && ascii_lowercase(p.0) == name {
            before.push(encode_utf8(p.1))
        } else {
            before
        }
    }
}

proof fn lemma_with_appended(
    e: Map<Seq<char>, Seq<Seq<u8>>>,
    l: Seq<(Seq<char>, Seq<char>)>,
    keep_length: bool,
    name: Seq<char>,
)
    ensures
        values_in(with_appended(e, l, keep_length), name) == values_in(e, name) + added_values(
            l,
            name,
            keep_length,
        ),
    decreases l.len(),
{
    if l.len() == 0 {
        assert(values_in(e, name) + added_values(l, name, keep_length) =~= values_in(e, name));
    } else {
        lemma_with_appended(e, l.drop_last(), keep_length, name);
        let before = added_values(l.drop_last(), name, keep_length);
        let value = encode_utf8(l.last().1);
        assert((values_in(e, name) + before).push(value) =~= values_in(e, name) + before.push(
            value,
        ));
    }
}

/// Every header field of a page reaches the answer, in order and however often
/// its name occurs: a page that sets two cookies sets both. The answer says once
/// whether the page came from the cache.
pub proof fn law_page_fields_are_kept(
    e: Map<Seq<char>, Seq<Seq<u8>>>,
    l: Seq<(Seq<char>, Seq<char>)>,
    state: CacheState,
    name: Seq<char>,
)
    ensures
        name != "x-ssr-cache"@ ==> values_in(with_page_fields(e, l, state), name) == values_in(
            e,
            name,
        ) + added_values(l, name, false),
        values_in(with_page_fields(e, l, state), "x-ssr-cache"@) == seq![
            encode_utf8(state.word()),
        ],
{
    lemma_with_appended(e, l, false, name);
}

/// The length of the body that a page reports never reaches the answer.
pub proof fn law_content_length_is_left_out(
    e: Map<Seq<char>, Seq<Seq<u8>>>,
    l: Seq<(Seq<char>, Seq<char>)>,
    state: CacheState,
)
    ensures
        values_in(with_page_fields(e, l, state), "content-length"@) == values_in(
            e,
            "content-length"@,
        ),
{
    reveal_strlit("content-length");
    reveal_strlit("x-ssr-cache");
    assert("content-length"@.len() != "x-ssr-cache"@.len());
    lemma_no_content_length(l);
    lemma_with_appended(e, l, false, "content-length"@);
    assert(values_in(e, "content-length"@) + Seq::<Seq<u8>>::empty() =~= values_in(
        e,
        "content-length"@,
    ));
}

proof fn lemma_no_content_length(l: Seq<(Seq<char>, Seq<char>)>)
    ensures
        added_values(l, "content-length"@, false) == Seq::<Seq<u8>>::empty(),
    decreases l.len(),
{
    if l.len() > 0 {
        lemma_no_content_length(l.drop_last());
        reveal_strlit("content-length");
        assert(ascii_lowercase("content-length"@) =~= "content-length"@);
    }
}

/// A request that a page makes has each name at most once, with the value that
/// was given last.
pub proof fn law_last_header_stays(
    l: Seq<(Seq<char>, Seq<char>)>,
    p: (Seq<char>, Seq<char>),
    other: Seq<char>,
)
    requires
        is_field(p),
    ensures
        values_in(with_inserted(no_entries(), l.push(p)), ascii_lowercase(p.0)) == seq![
            encode_utf8(p.1),
        ],
        other != ascii_lowercase(p.0) ==> values_in(
            with_inserted(no_entries(), l.push(p)),
            other,
        ) == values_in(with_inserted(no_entries(), l), other),
{
    assert(l.push(p).drop_last() =~= l);
}

/// A request whose header fields may be repeated has, for each name, the values
/// of all its fields, in order, and those of the length of the body too.
pub proof fn law_repeated_headers_stay(l: Seq<(Seq<char>, Seq<char>)>, name: Seq<char>)
    ensures
        values_in(with_appended(no_entries(), l, true), name) == added_values(l, name, true),
{
    lemma_with_appended(no_entries(), l, true, name);
    let none = values_in(no_entries(), name);
    assert(none + added_values(l, name, true) =~= added_values(l, name, true));
}

/// A map has room for a list of pairs where it has room for as many names as
/// there are pairs.
pub proof fn law_few_pairs_have_room(
    e: Map<Seq<char>, Seq<Seq<u8>>>,
    l: Seq<(Seq<char>, Seq<char>)>,
    keep_length: bool,
)
    requires
        e.dom().finite(),
        e.dom().len() + l.len() <= SAFE_HEADER_NAMES,
    ensures
        has_room(with_inserted(e, l)),
        has_room(with_appended(e, l, keep_length)),
{
    lemma_names_bound(e, l, keep_length);
}

proof fn lemma_names_bound(
    e: Map<Seq<char>, Seq<Seq<u8>>>,
    l: Seq<(Seq<char>, Seq<char>)>,
    keep_length: bool,
)
    requires
        e.dom().finite(),
    ensures
        with_inserted(e, l).dom().finite(),
        with_inserted(e, l).dom().len() <= e.dom().len() + l.len(),
        with_appended(e, l, keep_length).dom().finite(),
        with_appended(e, l, keep_length).dom().len() <= e.dom().len() + l.len(),
    decreases l.len(),
{
    if l.len() > 0 {
        lemma_names_bound(e, l.drop_last(), keep_length);
    }
}

/// However often one name occurs, it takes up the room of one: a page may set as
/// many cookies as it likes.
pub proof fn law_repeated_names_have_room(
    e: Map<Seq<char>, Seq<Seq<u8>>>,
    l: Seq<(Seq<char>, Seq<char>)>,
    name: Seq<char>,
    keep_length: bool,
)
    requires
        e.dom().finite(),
        e.dom().len() < SAFE_HEADER_NAMES,
        forall|i: int| 0 <= i < l.len() ==> ascii_lowercase((#[trigger] l[i]).0) == name,
    ensures
        has_room(with_inserted(e, l)),
        has_room(with_appended(e, l, keep_length)),
{
    lemma_one_name(e, l, name, keep_length);
    lemma_len_subset(with_inserted(e, l).dom(), e.dom().insert(name));
    lemma_len_subset(with_appended(e, l, keep_length).dom(), e.dom().insert(name));
}

proof fn lemma_one_name(
    e: Map<Seq<char>, Seq<Seq<u8>>>,
    l: Seq<(Seq<char>, Seq<char>)>,
    name: Seq<char>,
    keep_length: bool,
)
    requires
        forall|i: int| 0 <= i < l.len() ==> ascii_lowercase((#[trigger] l[i]).0) == name,
    ensures
        with_inserted(e, l).dom().subset_of(e.dom().insert(name)),
        with_appended(e, l, keep_length).dom().subset_of(e.dom().insert(name)),
    decreases l.len(),
{
    if l.len() > 0 {
        assert(ascii_lowercase(l[l.len() - 1].0) == name);
        lemma_one_name(e, l.drop_last(), name, keep_length);
    }
}

/// The token characters are the ASCII letters and digits and fifteen marks. A
/// method is one or more of them, and a header name as many, up to a length.
pub proof fn law_tokens(c: char, s: Seq<char>)
    ensures
        is_token_char(c)
            <==> "abcdefghijklmnopqrstuvwxyzABCDEFGHIJKLMNOPQRSTUVWXYZ0123456789!#$%&'*+-.^_`|~"@.contains(
        c),
        is_token(s) <==> s.len() > 0 && forall|i: int|
            0 <= i < s.len()
                ==> "abcdefghijklmnopqrstuvwxyzABCDEFGHIJKLMNOPQRSTUVWXYZ0123456789!#$%&'*+-.^_`|~"@.contains(
            #[trigger] s[i]),
        is_header_name(s) <==> is_token(s) && s.len() <= 65535,
{
    lemma_token_char(c);
    let all =
        "abcdefghijklmnopqrstuvwxyzABCDEFGHIJKLMNOPQRSTUVWXYZ0123456789!#$%&'*+-.^_`|~"@;
    assert forall|i: int| 0 <= i < s.len() implies (is_token_char(#[trigger] s[i]) <==> all.contains(
        s[i],
    )) by {
        lemma_token_char(s[i]);
    }
}

proof fn lemma_token_char(c: char)
    ensures
        is_token_char(c)
            <==> "abcdefghijklmnopqrstuvwxyzABCDEFGHIJKLMNOPQRSTUVWXYZ0123456789!#$%&'*+-.^_`|~"@.contains(
        c),
{
    let all =
        "abcdefghijklmnopqrstuvwxyzABCDEFGHIJKLMNOPQRSTUVWXYZ0123456789!#$%&'*+-.^_`|~"@;
    reveal_strlit("abcdefghijklmnopqrstuvwxyzABCDEFGHIJKLMNOPQRSTUVWXYZ0123456789!#$%&'*+-.^_`|~");
    let listed = seq![
        'a', 'b', 'c', 'd', 'e', 'f', 'g', 'h', 'i', 'j', 'k', 'l', 'm', 'n', 'o', 'p', 'q', 'r',
        's', 't', 'u', 'v', 'w', 'x', 'y', 'z', 'A', 'B', 'C', 'D', 'E', 'F', 'G', 'H', 'I', 'J',
        'K', 'L', 'M', 'N', 'O', 'P', 'Q', 'R', 'S', 'T', 'U', 'V', 'W', 'X', 'Y', 'Z', '0', '1',
        '2', '3', '4', '5', '6', '7', '8', '9', '!', '#', '$', '%', '&', '\'', '*', '+', '-', '.',
        '^', '_', '`', '|', '~',
    ];
    assert(all =~= listed);
    if 'a' <= c <= 'z' {
        assert(listed[c as int - 97] == c);
    } else if 'A' <= c <= 'Z' {
        assert(listed[c as int - 65 + 26] == c);
    } else if '0' <= c <= '9' {
        assert(listed[c as int - 48 + 52] == c);
    } else if is_token_char(c) {
        assert(listed[62] == '!' && listed[63] == '#' && listed[64] == '$' && listed[65] == '%'
            && listed[66] == '&' && listed[67] == '\'' && listed[68] == '*' && listed[69] == '+'
            && listed[70] == '-' && listed[71] == '.' && listed[72] == '^' && listed[73] == '_'
            && listed[74] == '`' && listed[75] == '|' && listed[76] == '~');
    }
    if all.contains(c) {
        let i = choose|i: int| 0 <= i < all.len() && all[i] == c;
        assert(is_token_char(listed[i]));
    }
}

/// A header value is made of bytes that can each stand in one: any but the control
/// characters, and the tab. It is text where they are ASCII too, and each is then
/// the character with its number.
pub proof fn law_header_values(a: Seq<u8>, b: Seq<u8>, byte: u8)
    ensures
        is_header_value(a + b) <==> is_header_value(a) && is_header_value(b),
        is_header_text(a + b) <==> is_header_text(a) && is_header_text(b),
        is_header_value(seq![]) && is_header_text(seq![]),
        is_header_value(seq![byte]) <==> byte == '\t' as u8 || (byte >= 32 && byte != 127),
        is_header_text(seq![byte]) <==> byte == '\t' as u8 || 32 <= byte <= 126,
        header_text(a + b) == header_text(a) + header_text(b),
        header_text(seq![byte]) == seq![byte as char],
        is_header_text(a) ==> text_or_empty(a) == header_text(a),
        !is_header_text(a) ==> text_or_empty(a) == Seq::<char>::empty(),
{
    let s = a + b;
    if is_header_value(s) || is_header_text(s) {
        assert forall|i: int| 0 <= i < a.len() implies #[trigger] a[i] == s[i] by {}
        assert forall|i: int| 0 <= i < b.len() implies #[trigger] b[i] == s[a.len() + i] by {}
    }
    assert forall|i: int| 0 <= i < s.len() implies #[trigger] s[i] == (if i < a.len() {
        a[i]
    } else {
        b[i - a.len()]
    }) by {}
    assert(header_text(s) =~= header_text(a) + header_text(b));
    assert(header_text(seq![byte]) =~= seq![byte as char]);
    assert(seq![byte][0] == byte);
}

/// The header fields for a name, among some pairs: those whose name is a header
/// name and, but for its case, this one, and whose value is a header value.
pub open spec fn fields_for(l: Seq<(Seq<char>, Seq<char>)>, name: Seq<char>) -> Seq<
    (Seq<char>, Seq<char>),
> {
    l.filter(
        |p: (Seq<char>, Seq<char>)|
            is_header_name(p.0) && is_header_value(encode_utf8(p.1)) && ascii_lowercase(p.0)
                == name,
    )
}

/// Inserting pairs gives a name the value of the last of its fields, and leaves a
/// name without fields as it was.
pub proof fn law_inserted_values(
    e: Map<Seq<char>, Seq<Seq<u8>>>,
    l: Seq<(Seq<char>, Seq<char>)>,
    name: Seq<char>,
)
    ensures
        fields_for(l, name).len() == 0 ==> values_in(with_inserted(e, l), name) == values_in(
            e,
            name,
        ),
        fields_for(l, name).len() > 0 ==> values_in(with_inserted(e, l), name) == seq![
            encode_utf8(fields_for(l, name).last().1),
        ],
    decreases l.len(),
{
    reveal(Seq::filter);
    if l.len() > 0 {
        law_inserted_values(e, l.drop_last(), name);
    }
}

/// Adding pairs adds to a name the values of its fields, all of them and in order;
/// the length of the body is passed over, unless it is to be kept.
pub proof fn law_appended_values(
    e: Map<Seq<char>, Seq<Seq<u8>>>,
    l: Seq<(Seq<char>, Seq<char>)>,
    keep_length: bool,
    name: Seq<char>,
)
    ensures
        keep_length || name != "content-length"@ ==> values_in(
            with_appended(e, l, keep_length),
            name,
        ) == values_in(e, name) + fields_for(l, name).map_values(
            |p: (Seq<char>, Seq<char>)| encode_utf8(p.1),
        ),
        !keep_length ==> values_in(with_appended(e, l, keep_length), "content-length"@)
            == values_in(e, "content-length"@),
    decreases l.len(),
{
    reveal(Seq::filter);
    reveal_strlit("content-length");
    assert(ascii_lowercase("content-length"@) =~= "content-length"@);
    let g = |p: (Seq<char>, Seq<char>)| encode_utf8(p.1);
    if l.len() == 0 {
        assert(fields_for(l, name).map_values(g) =~= seq![]);
        assert(values_in(e, name) + Seq::<Seq<u8>>::empty() =~= values_in(e, name));
    } else {
        law_appended_values(e, l.drop_last(), keep_length, name);
        let before = fields_for(l.drop_last(), name);
        let p = l.last();
        assert(before.push(p).map_values(g) =~= before.map_values(g).push(g(p)));
        assert((values_in(e, name) + before.map_values(g)).push(g(p)) =~= values_in(e, name)
            + before.map_values(g).push(g(p)));
    }
}

/// An answer with a page has all the header fields of the page but for the length
/// of the body, behind those that it had already, and says `HIT` or `MISS`.
pub proof fn law_answer_headers(
    e: Map<Seq<char>, Seq<Seq<u8>>>,
    l: Seq<(Seq<char>, Seq<char>)>,
    state: CacheState,
    name: Seq<char>,
)
    ensures
        name != "content-length"@ && name != "x-ssr-cache"@ ==> values_in(
            with_page_fields(e, l, state),
            name,
        ) == values_in(e, name) + fields_for(l, name).map_values(
            |p: (Seq<char>, Seq<char>)| encode_utf8(p.1),
        ),
        values_in(with_page_fields(e, l, state), "content-length"@) == values_in(
            e,
            "content-length"@,
        ),
        values_in(with_page_fields(e, l, CacheState::Hit), "x-ssr-cache"@) == seq![
            encode_utf8("HIT"@),
        ],
        values_in(with_page_fields(e, l, CacheState::Miss), "x-ssr-cache"@) == seq![
            encode_utf8("MISS"@),
        ],
{
    law_appended_values(e, l, false, name);
    reveal_strlit("content-length");
    reveal_strlit("x-ssr-cache");
    assert("content-length"@.len() != "x-ssr-cache"@.len());
}

/// The values of a name in a list of fields are those of the fields with that name,
/// in order.
pub proof fn law_field_values(l: Seq<(Seq<char>, Seq<u8>)>, name: Seq<char>)
    ensures
        field_values(l, name) == l.filter(|f: (Seq<char>, Seq<u8>)| f.0 == name).map_values(
            |f: (Seq<char>, Seq<u8>)| f.1,
        ),
    decreases l.len(),
{
    reveal(Seq::filter);
    let f = |f: (Seq<char>, Seq<u8>)| f.0 == name;
    let g = |f: (Seq<char>, Seq<u8>)| f.1;
    if l.len() > 0 {
        law_field_values(l.drop_last(), name);
    }
    assert(field_values(l, name) =~= l.filter(f).map_values(g));
}

/// A page sees of the values of a name the last that is text.
pub proof fn law_last_text(values: Seq<Seq<u8>>)
    ensures
        ({
            let texts = values.filter(|v: Seq<u8>| is_header_text(v));
            &&& texts.len() == 0 ==> last_text(values) == Seq::<Seq<char>>::empty()
            &&& texts.len() > 0 ==> last_text(values) == seq![header_text(texts.last())]
        }),
    decreases values.len(),
{
    reveal(Seq::filter);
    if values.len() > 0 {
        law_last_text(values.drop_last());
    }
}

/// The fields of an answer keep their order and their names, and each its value as
/// text, empty where it is none.
pub proof fn law_fields_as_text(
    l: Seq<(Seq<char>, Seq<u8>)>,
    fields: Seq<(String, Vec<u8>)>,
    i: int,
)
    ensures
        fields_as_text(l).len() == l.len(),
        0 <= i < l.len() ==> fields_as_text(l)[i].0 == l[i].0 && fields_as_text(l)[i].1
            == text_or_empty(l[i].1),
        fields_view(fields).len() == fields.len(),
        0 <= i < fields.len() ==> fields_view(fields)[i] == (fields[i].0@, fields[i].1@),
{
}

} // verus!
