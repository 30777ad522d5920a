//! The in-memory cache of rendered pages and the rule for what it holds.

use crate::pairs::{clone_pairs, has_name};
use crate::text::{ascii_lowercase, eq_ignore_ascii_case, pairs_view, str_eq};
use std::sync::Arc;
use std::time::Instant;
use vstd::prelude::*;

verus! {

/// How many entries the cache holds at most.
pub const MAX_CACHE_ENTRIES: usize = 1024;

/// A moment of the monotonic clock, carried and never looked into.
#[verifier::external_type_specification]
#[verifier::external_body]
pub struct ExInstant(std::time::Instant);

/// A rendered page.
#[derive(Debug)]
pub struct CachedEntry {
    /// The status code.
    pub status: u16,
    /// The header fields. A name may occur more than once.
    pub headers: Vec<(String, String)>,
    /// The page.
    pub body: String,
    /// When the page was rendered.
    pub cached_at: Instant,
}

/// A rendered page as mathematical data.
pub struct EntryView {
    /// The status code.
    pub status: u16,
    /// The header fields.
    pub headers: Seq<(Seq<char>, Seq<char>)>,
    /// The page.
    pub body: Seq<char>,
    /// When the page was rendered.
    pub cached_at: Instant,
}

impl View for CachedEntry {
    type V = EntryView;

    open spec fn view(&self) -> EntryView {
        EntryView {
            status: self.status,
            headers: pairs_view(self.headers@),
            body: self.body@,
            cached_at: self.cached_at,
        }
    }
}

impl Clone for CachedEntry {
    fn clone(&self) -> (r: Self)
        ensures
            r@ == self@,
    {
        CachedEntry {
            status: self.status,
            headers: clone_pairs(&self.headers),
            body: self.body.clone(),
            cached_at: self.cached_at,
        }
    }
}

/// Whether a key is in a list of entries.
pub open spec fn has_key(c: Seq<(Seq<char>, EntryView)>, key: Seq<char>) -> bool {
    exists|i: int| 0 <= i < c.len() && (#[trigger] c[i]).0 == key
}

/// The entry of a key: the first one in the list.
pub open spec fn cached(c: Seq<(Seq<char>, EntryView)>, key: Seq<char>) -> Option<EntryView>
    decreases c.len(),
{
    if c.len() == 0 {
        None
    } else if c[0].0 == key {
        Some(c[0].1)
    } else {
        cached(c.skip(1), key)
    }
}

/// A list of entries that makes room for one more: a full list loses its older half.
pub open spec fn with_room(c: Seq<(Seq<char>, EntryView)>) -> Seq<(Seq<char>, EntryView)> {
    if c.len() >= MAX_CACHE_ENTRIES {
        c.skip(c.len() as int / 2)
    } else {
        c
    }
}

/// What storing an entry makes of a list: a known key keeps its place and gets
/// the new entry; a new key goes to the end, where need be after the older half
/// of the list has gone.
pub open spec fn stored(
    c: Seq<(Seq<char>, EntryView)>,
    key: Seq<char>,
    entry: EntryView,
) -> Seq<(Seq<char>, EntryView)> {
    if has_key(c, key) {
        c.map_values(
            |p: (Seq<char>, EntryView)|
                if p.0 == key {
                    (key, entry)
                } else {
                    p
                },
        )
    } else {
        with_room(c).push((key, entry))
    }
}

/// What always holds of the entries of a cache: there are not too many, and no
/// key occurs twice.
pub open spec fn cache_ok(c: Seq<(Seq<char>, EntryView)>) -> bool {
    &&& c.len() <= MAX_CACHE_ENTRIES
    &&& forall|i: int, j: int|
        0 <= i < j < c.len() ==> (#[trigger] c[i]).0 != (#[trigger] c[j]).0
}

/// The keys and entries of a vector.
pub open spec fn entries_view(entries: Seq<(String, Arc<CachedEntry>)>) -> Seq<
    (Seq<char>, EntryView),
> {
    Seq::new(entries.len(), |i: int| (entries[i].0@, (*entries[i].1)@))
}

/// An in-memory cache of rendered pages, the oldest first. It is bounded: when
/// it is full, the older half goes at once, so that not every page has to be
/// rendered again. An entry does not age; it lives as long as the process.
pub struct SsrCache {
    entries: Vec<(String, Arc<CachedEntry>)>,
}

impl View for SsrCache {
    type V = Seq<(Seq<char>, EntryView)>;

    closed spec fn view(&self) -> Seq<(Seq<char>, EntryView)> {
        entries_view(self.entries@)
    }
}

impl SsrCache {
    #[verifier::type_invariant]
    spec fn inv(self) -> bool {
        cache_ok(entries_view(self.entries@))
    }

    /// An empty cache.
    pub fn new() -> (r: Self)
        ensures
            r@ == Seq::<(Seq<char>, EntryView)>::empty(),
    {
        let entries: Vec<(String, Arc<CachedEntry>)> = Vec::new();
        assert(entries_view(entries@) =~= Seq::empty());
        SsrCache { entries }
    }

    /// The entry of a key. The entry is shared, not copied.
    pub fn get(&self, key: &str) -> (r: Option<Arc<CachedEntry>>)
        ensures
            match r {
                Some(entry) => cached(self@, key@) == Some((*entry)@),
                None => cached(self@, key@) is None,
            },
            cache_ok(self@),
    {
        proof {
            use_type_invariant(self);
        }
        let ghost c = self@;
        match position_of(&self.entries, key) {
            Some(i) => {
                proof {
                    lemma_cached_at(c, key@, i as int);
                }
                Some(self.entries[i].1.clone())
            },
            None => {
                proof {
                    lemma_cached_iff_key(c, key@);
                }
                None
            },
        }
    }

    /// Stores an entry under a key.
    pub fn set(&mut self, key: String, entry: CachedEntry)
        ensures
            final(self)@ == stored(old(self)@, key@, entry@),
            cache_ok(final(self)@),
    {
        proof {
            use_type_invariant(&*self);
        }
        let ghost c = self@;
        let mut entries: Vec<(String, Arc<CachedEntry>)> = Vec::new();
        assert(entries_view(entries@) =~= Seq::empty());
        std::mem::swap(&mut entries, &mut self.entries);
        proof {
            law_store_keeps_bounds(c, key@, entry@);
        }
        match position_of(&entries, key.as_str()) {
            Some(i) => {
                entries.set(i, (key, Arc::new(entry)));
                proof {
                    let s = stored(c, key@, entry@);
                    assert(c[i as int].0 == key@);
                    assert forall|j: int| 0 <= j < c.len() implies #[trigger] entries_view(
                        entries@,
                    )[j] == s[j] by {
                        if j < i {
                            assert(c[j].0 != c[i as int].0);
                        } else if j > i {
                            assert(c[i as int].0 != c[j].0);
                        }
                    }
                    assert(entries_view(entries@) =~= s);
                }
            },
            None => {
                if entries.len() >= MAX_CACHE_ENTRIES {
                    let half: usize = entries.len() / 2;
                    entries = entries.split_off(half);
                }
                assert(entries_view(entries@) =~= with_room(c));
                entries.push((key, Arc::new(entry)));
                assert(entries_view(entries@) =~= with_room(c).push((key@, entry@)));
            },
        }
        self.entries = entries;
    }
}

impl Default for SsrCache {
    fn default() -> (r: Self)
        ensures
            r@ == Seq::<(Seq<char>, EntryView)>::empty(),
    {
        Self::new()
    }
}

/// Where a key first stands.
fn position_of(entries: &Vec<(String, Arc<CachedEntry>)>, key: &str) -> (r: Option<usize>)
    ensures
        match r {
            Some(i) => i < entries@.len() && entries@[i as int].0@ == key@ && forall|j: int|
                0 <= j < i ==> (#[trigger] entries@[j]).0@ != key@,
            None => !has_key(entries_view(entries@), key@),
        },
{
    let mut i: usize = 0;
    while i < entries.len()
        invariant
            i <= entries@.len(),
            forall|j: int| 0 <= j < i ==> (#[trigger] entries@[j]).0@ != key@,
        decreases entries@.len() - i,
    {
        if str_eq(entries[i].0.as_str(), key) {
            return Some(i);
        }
        i = i + 1;
    }
    None
}

/// Whether a rendered page may be cached: only the answer to a `GET` request
/// without a query, with status 200, that sets no cookie and for which the
/// page fetched nothing. A `Vary` header is not looked at.
pub fn is_cacheable(
    method: &str,
    status: u16,
    headers: &[(String, String)],
    has_query: bool,
    fetched: bool,
) -> (r: bool)
    ensures
        r == cacheable(method@, status, pairs_view(headers@), has_query, fetched),
{
    let mut i: usize = 0;
    let mut has_cookie: bool = false;
    let ghost l = pairs_view(headers@);
    while i < headers.len()
        invariant
            i <= headers@.len(),
            l == pairs_view(headers@),
            has_cookie == sets_cookie(l.take(i as int)),
        decreases headers@.len() - i,
    {
        proof {
            assert(forall|j: int| 0 <= j < i ==> l.take(i + 1)[j] == l.take(i as int)[j]);
            assert(l.take(i + 1)[i as int] == l[i as int]);
        }
        if eq_ignore_ascii_case(headers[i].0.as_str(), "set-cookie") {
            has_cookie = true;
            assert(sets_cookie(l.take(i + 1))) by {
                assert(ascii_lowercase(l.take(i + 1)[i as int].0) == ascii_lowercase(
                    "set-cookie"@,
                ));
            }
        } else {
            assert(sets_cookie(l.take(i + 1)) == sets_cookie(l.take(i as int))) by {
                if sets_cookie(l.take(i as int)) {
                    let j = choose|j: int|
                        0 <= j < i && ascii_lowercase((#[trigger] l.take(i as int)[j]).0)
                            == ascii_lowercase("set-cookie"@);
                    assert(ascii_lowercase(l.take(i + 1)[j].0) == ascii_lowercase("set-cookie"@));
                }
            }
        }
        i = i + 1;
    }
    assert(l.take(i as int) =~= l);
    str_eq(method, "GET") && status == 200 && !has_cookie && !has_query && !fetched
}

/// Whether a list of header fields sets a cookie.
pub open spec fn sets_cookie(l: Seq<(Seq<char>, Seq<char>)>) -> bool {
    exists|i: int|
        0 <= i < l.len() && ascii_lowercase((#[trigger] l[i]).0) == ascii_lowercase("set-cookie"@)
}

/// Whether a rendered page may be cached.
pub open spec fn cacheable(
    method: Seq<char>,
    status: u16,
    headers: Seq<(Seq<char>, Seq<char>)>,
    has_query: bool,
    fetched: bool,
) -> bool {
    method == "GET"@ && status == 200 && !sets_cookie(headers) && !has_query && !fetched
}

proof fn lemma_cached_iff_key(c: Seq<(Seq<char>, EntryView)>, key: Seq<char>)
    ensures
        cached(c, key) is Some <==> has_key(c, key),
    decreases c.len(),
{
    if c.len() > 0 {
        lemma_cached_iff_key(c.skip(1), key);
        if has_key(c, key) && c[0].0 != key {
            let i = choose|i: int| 0 <= i < c.len() && (#[trigger] c[i]).0 == key;
            assert(c.skip(1)[i - 1].0 == key);
        }
        if has_key(c.skip(1), key) {
            let i = choose|i: int| 0 <= i < c.skip(1).len() && (#[trigger] c.skip(1)[i]).0 == key;
            assert(c[i + 1].0 == key);
        }
        if c[0].0 == key {
            assert(has_key(c, key));
        }
    }
}

proof fn lemma_cached_at(c: Seq<(Seq<char>, EntryView)>, key: Seq<char>, i: int)
    requires
        0 <= i < c.len(),
        c[i].0 == key,
        forall|j: int| 0 <= j < i ==> (#[trigger] c[j]).0 != key,
    ensures
        cached(c, key) == Some(c[i].1),
    decreases c.len(),
{
    if i > 0 {
        assert forall|j: int| 0 <= j < i - 1 implies (#[trigger] c.skip(1)[j]).0 != key by {
            assert(c[j + 1].0 != key);
        }
        lemma_cached_at(c.skip(1), key, i - 1);
    }
}

/// Entries of a list without a repeated key: a key has the entry it stands beside.
proof fn lemma_cached_unique(c: Seq<(Seq<char>, EntryView)>, i: int)
    requires
        cache_ok(c),
        0 <= i < c.len(),
    ensures
        cached(c, c[i].0) == Some(c[i].1),
{
    lemma_cached_at(c, c[i].0, i);
}

/// Storing keeps the bound on the number of entries and repeats no key.
pub proof fn law_store_keeps_bounds(
    c: Seq<(Seq<char>, EntryView)>,
    key: Seq<char>,
    entry: EntryView,
)
    requires
        cache_ok(c),
    ensures
        cache_ok(stored(c, key, entry)),
{
    let s = stored(c, key, entry);
    if has_key(c, key) {
        assert forall|i: int, j: int| 0 <= i < j < s.len() implies (#[trigger] s[i]).0 != (
        #[trigger] s[j]).0 by {
            assert(s[i].0 == c[i].0 && s[j].0 == c[j].0);
        }
    } else {
        let w = with_room(c);
        assert forall|i: int, j: int| 0 <= i < j < s.len() implies (#[trigger] s[i]).0 != (
        #[trigger] s[j]).0 by {
            let d = c.len() - w.len();
            assert(s[i].0 == c[i + d].0);
            if j < w.len() {
                assert(s[j].0 == c[j + d].0);
            }
        }
    }
}

/// What was stored under a key is what the key then gives.
pub proof fn law_get_after_set(c: Seq<(Seq<char>, EntryView)>, key: Seq<char>, entry: EntryView)
    requires
        cache_ok(c),
    ensures
        cached(stored(c, key, entry), key) == Some(entry),
{
    let s = stored(c, key, entry);
    law_store_keeps_bounds(c, key, entry);
    if has_key(c, key) {
        let i = choose|i: int| 0 <= i < c.len() && (#[trigger] c[i]).0 == key;
        assert(s[i] == (key, entry));
        lemma_cached_unique(s, i);
    } else {
        lemma_cached_unique(s, s.len() - 1);
    }
}

/// Storing under one key leaves every other key as it was, unless the cache was
/// full and the key was new.
pub proof fn law_set_keeps_others(
    c: Seq<(Seq<char>, EntryView)>,
    key: Seq<char>,
    entry: EntryView,
    other: Seq<char>,
)
    requires
        cache_ok(c),
        other != key,
        has_key(c, key) || c.len() < MAX_CACHE_ENTRIES,
    ensures
        cached(stored(c, key, entry), other) == cached(c, other),
{
    let s = stored(c, key, entry);
    law_store_keeps_bounds(c, key, entry);
    lemma_cached_iff_key(c, other);
    lemma_cached_iff_key(s, other);
    if has_key(c, other) {
        let i = choose|i: int| 0 <= i < c.len() && (#[trigger] c[i]).0 == other;
        assert(s[i] == c[i]);
        lemma_cached_unique(s, i);
        lemma_cached_unique(c, i);
    } else if has_key(s, other) {
        let i = choose|i: int| 0 <= i < s.len() && (#[trigger] s[i]).0 == other;
        assert(c[i].0 == other);
    }
}

/// A full cache that gets a new key loses the older half of its entries and
/// keeps the newer half.
pub proof fn law_full_cache_drops_older_half(
    c: Seq<(Seq<char>, EntryView)>,
    key: Seq<char>,
    entry: EntryView,
    i: int,
)
    requires
        cache_ok(c),
        c.len() == MAX_CACHE_ENTRIES,
        !has_key(c, key),
        0 <= i < c.len(),
    ensures
        stored(c, key, entry).len() == MAX_CACHE_ENTRIES / 2 + 1,
        i < MAX_CACHE_ENTRIES / 2 ==> cached(stored(c, key, entry), c[i].0) is None,
        i >= MAX_CACHE_ENTRIES / 2 ==> cached(stored(c, key, entry), c[i].0) == Some(c[i].1),
{
    let s = stored(c, key, entry);
    let half = MAX_CACHE_ENTRIES as int / 2;
    law_store_keeps_bounds(c, key, entry);
    if i < half {
        lemma_cached_iff_key(s, c[i].0);
        if has_key(s, c[i].0) {
            let j = choose|j: int| 0 <= j < s.len() && (#[trigger] s[j]).0 == c[i].0;
            if j < s.len() - 1 {
                assert(s[j] == c[j + half]);
            } else {
                assert(s[j].0 == key);
            }
        }
    } else {
        assert(s[i - half] == c[i]);
        lemma_cached_unique(s, i - half);
    }
}

/// A page that sets a cookie, answers anything but a `GET`, has a query, or
/// fetched something is never cacheable.
pub proof fn law_never_cacheable(
    method: Seq<char>,
    status: u16,
    headers: Seq<(Seq<char>, Seq<char>)>,
    has_query: bool,
    fetched: bool,
)
    requires
        method != "GET"@ || has_name(headers, "set-cookie"@) || has_query || fetched || status
            != 200,
    ensures
        !cacheable(method, status, headers, has_query, fetched),
{
    if has_name(headers, "set-cookie"@) {
        let i = choose|i: int| 0 <= i < headers.len() && (#[trigger] headers[i]).0 == "set-cookie"@;
        assert(ascii_lowercase(headers[i].0) == ascii_lowercase("set-cookie"@));
    }
}

/// A key gives an entry exactly when an entry was stored under that very key: the
/// first one of the list, and never that of another key.
pub proof fn law_get_gives_what_the_key_holds(c: Seq<(Seq<char>, EntryView)>, key: Seq<char>)
    ensures
        cached(c, key) is Some <==> c.map_values(|p: (Seq<char>, EntryView)| p.0).contains(key),
        cached(c, key) matches Some(entry) ==> exists|i: int|
            0 <= i < c.len() && #[trigger] c[i] == (key, entry) && forall|j: int|
                0 <= j < i ==> (#[trigger] c[j]).0 != key,
    decreases c.len(),
{
    let f = |p: (Seq<char>, EntryView)| p.0;
    lemma_cached_iff_key(c, key);
    if has_key(c, key) {
        let i = choose|i: int| 0 <= i < c.len() && (#[trigger] c[i]).0 == key;
        assert(c.map_values(f)[i] == key);
        lemma_first_place(c, key, i);
        let k = choose|k: int|
            0 <= k < c.len() && (#[trigger] c[k]).0 == key && forall|j: int|
                0 <= j < k ==> (#[trigger] c[j]).0 != key;
        lemma_cached_at(c, key, k);
        assert(c[k] == (key, cached(c, key)->0));
    }
    if c.map_values(f).contains(key) {
        let i = choose|i: int| 0 <= i < c.len() && c.map_values(f)[i] == key;
        assert(c[i].0 == key);
    }
}

/// A key that stands somewhere has a first place.
proof fn lemma_first_place(c: Seq<(Seq<char>, EntryView)>, key: Seq<char>, i: int)
    requires
        0 <= i < c.len(),
        c[i].0 == key,
    ensures
        exists|k: int|
            0 <= k < c.len() && (#[trigger] c[k]).0 == key && forall|j: int|
                0 <= j < k ==> (#[trigger] c[j]).0 != key,
    decreases i,
{
    if exists|j: int| 0 <= j < i && (#[trigger] c[j]).0 == key {
        let j = choose|j: int| 0 <= j < i && (#[trigger] c[j]).0 == key;
        lemma_first_place(c, key, j);
    } else {
        assert(c[i].0 == key && forall|j: int| 0 <= j < i ==> (#[trigger] c[j]).0 != key);
    }
}

/// Storing puts a new key at the end, behind all that is there already; a known
/// key keeps its place, and nothing else changes. Only a cache with 1024 entries
/// makes room, by leaving its first 512 behind.
pub proof fn law_store_keeps_order(
    c: Seq<(Seq<char>, EntryView)>,
    key: Seq<char>,
    entry: EntryView,
    i: int,
)
    requires
        cache_ok(c),
    ensures
        (forall|j: int| 0 <= j < c.len() ==> (#[trigger] c[j]).0 != key) && c.len() < 1024
            ==> stored(c, key, entry) == c.push((key, entry)),
        (forall|j: int| 0 <= j < c.len() ==> (#[trigger] c[j]).0 != key) && c.len() == 1024
            ==> stored(c, key, entry) == c.skip(512).push((key, entry)),
        0 <= i < c.len() && c[i].0 == key ==> stored(c, key, entry) == c.update(i, (key, entry)),
        c.len() <= 1024,
{
    if 0 <= i < c.len() && c[i].0 == key {
        let s = stored(c, key, entry);
        assert(has_key(c, key));
        assert forall|j: int| 0 <= j < c.len() implies #[trigger] s[j] == c.update(
            i,
            (key, entry),
        )[j] by {
            if j < i {
                assert(c[j].0 != c[i].0);
            } else if j > i {
                assert(c[i].0 != c[j].0);
            }
        }
        assert(s =~= c.update(i, (key, entry)));
    }
}

/// Storing invents nothing: whatever another key then gives, it gave before.
pub proof fn law_set_invents_nothing(
    c: Seq<(Seq<char>, EntryView)>,
    key: Seq<char>,
    entry: EntryView,
    other: Seq<char>,
)
    requires
        cache_ok(c),
        other != key,
    ensures
        cached(stored(c, key, entry), other) is Some ==> cached(stored(c, key, entry), other)
            == cached(c, other),
{
    if has_key(c, key) || c.len() < MAX_CACHE_ENTRIES {
        law_set_keeps_others(c, key, entry, other);
    } else {
        let s = stored(c, key, entry);
        law_store_keeps_bounds(c, key, entry);
        lemma_cached_iff_key(s, other);
        if has_key(s, other) {
            let i = choose|i: int| 0 <= i < s.len() && (#[trigger] s[i]).0 == other;
            let d = c.len() as int / 2;
            assert(s[i] == c[i + d]);
            lemma_cached_unique(s, i);
            lemma_cached_unique(c, i + d);
        }
    }
}

/// A page may be cached in exactly these cases: it answers a `GET` request without
/// a query, its status is 200, none of its header fields is named `set-cookie` in
/// whatever case, and it fetched nothing.
pub proof fn law_cacheable_exactly(
    method: Seq<char>,
    status: u16,
    headers: Seq<(Seq<char>, Seq<char>)>,
    has_query: bool,
    fetched: bool,
)
    ensures
        cacheable(method, status, headers, has_query, fetched) <==> {
            &&& method == "GET"@
            &&& status == 200
            &&& !has_query
            &&& !fetched
            &&& forall|i: int|
                0 <= i < headers.len() ==> ascii_lowercase((#[trigger] headers[i]).0)
                    != "set-cookie"@
        },
{
    reveal_strlit("set-cookie");
    assert(ascii_lowercase("set-cookie"@) =~= "set-cookie"@);
}

} // verus!
