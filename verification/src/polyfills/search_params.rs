//! `URLSearchParams`: the query of a URL as a list of parameters.

use super::js_value::{list_pairs, pairs_of_list, JsInit};
use super::urlencoded::{
    form_decoded, form_encoded, law_decode_undoes_encode, lemma_encoded_bytes, percent_encode,
    safe_decode,
};
use crate::pairs::{
    all_values, clone_pairs, contains_name, first_named, has_name, join, joined, law_joined,
    law_with_single, lemma_push_values, lemma_values_iff_name, lemma_with_single,
    lemma_without_name, names, names_of, remove_named, replace_named, values, values_named,
    values_of, with_single, without_name,
};
use crate::text::{
    chars_of, lemma_split_concat, lemma_split_nonempty, lemma_split_single, pair_view, pairs_view,
    split, split_on, string_of, strings_view,
};
use vstd::prelude::*;
use vstd::utf8::encode_utf8;

verus! {

/// A string without the question marks that it starts with.
pub open spec fn without_question_marks(s: Seq<char>) -> Seq<char>
    decreases s.len(),
{
    if s.len() > 0 && s[0] == '?' {
        without_question_marks(s.skip(1))
    } else {
        s
    }
}

/// The parameter that one segment of a query stands for: the name is what
/// comes before the first `=` and the value what comes after it. A segment
/// without `=` is a name with an empty value.
pub open spec fn parameter(segment: Seq<char>) -> (Seq<char>, Seq<char>) {
    match segment.index_of_first('=') {
        Some(n) => (form_decoded(segment.take(n)), form_decoded(segment.skip(n + 1))),
        None => (form_decoded(segment), form_decoded(seq![])),
    }
}

/// The parameters of a query.
pub open spec fn parsed_query(query: Seq<char>) -> Seq<(Seq<char>, Seq<char>)> {
    let q = without_question_marks(query);
    if q.len() == 0 {
        seq![]
    } else {
        split(q, '&').map_values(|segment: Seq<char>| parameter(segment))
    }
}

/// What one parameter is written as.
pub open spec fn written_parameter(p: (Seq<char>, Seq<char>)) -> Seq<char> {
    form_encoded(p.0).push('=') + form_encoded(p.1)
}

/// What a list of parameters is written as.
pub open spec fn written_query(l: Seq<(Seq<char>, Seq<char>)>) -> Seq<char> {
    joined(l.map_values(|p: (Seq<char>, Seq<char>)| written_parameter(p)), seq!['&'])
}

/// What setting a name to a value makes of a list.
pub open spec fn with_set(
    l: Seq<(Seq<char>, Seq<char>)>,
    name: Seq<char>,
    value: Seq<char>,
) -> Seq<(Seq<char>, Seq<char>)> {
    if has_name(l, name) {
        with_single(l, name, value)
    } else {
        l.push((name, value))
    }
}

/// The parameters that a constructor argument stands for.
pub open spec fn initial_params(init: Option<JsInit>) -> Seq<(Seq<char>, Seq<char>)> {
    match init {
        None => seq![],
        Some(JsInit::Text(s)) => parsed_query(s@),
        Some(JsInit::List(items)) => list_pairs(items@),
        Some(JsInit::Record(entries)) => pairs_view(entries@),
        Some(JsInit::Other) => seq![],
    }
}

/// A list of query parameters. A name may occur more than once.
pub struct JsUrlSearchParams {
    params: Vec<(String, String)>,
}

impl View for JsUrlSearchParams {
    type V = Seq<(Seq<char>, Seq<char>)>;

    closed spec fn view(&self) -> Seq<(Seq<char>, Seq<char>)> {
        pairs_view(self.params@)
    }
}

/// The parameter that a segment of a query stands for.
fn parse_parameter(segment: &str) -> (r: (String, String))
    ensures
        pair_view(r) == parameter(segment@),
{
    let chars = chars_of(segment);
    proof {
        chars@.index_of_first_ensures('=');
    }
    let mut at: usize = 0;
    while at < chars.len() && chars[at] != '='
        invariant
            at <= chars@.len(),
            forall|j: int| 0 <= j < at ==> chars@[j] != '=',
        decreases chars@.len() - at,
    {
        at = at + 1;
    }
    let name = string_of(&chars, 0, at);
    let value = if at < chars.len() {
        string_of(&chars, at + 1, chars.len())
    } else {
        String::new()
    };
    proof {
        assert(name@ =~= chars@.take(at as int));
        if at < chars@.len() {
            assert(chars@.contains('='));
            assert(value@ =~= chars@.skip(at + 1));
        } else {
            assert(!chars@.contains('='));
            assert(name@ =~= chars@);
            assert(value@ =~= Seq::<char>::empty());
        }
    }
    (safe_decode(name.as_str()), safe_decode(value.as_str()))
}

/// How many question marks a string starts with.
fn leading_question_marks(chars: &Vec<char>) -> (r: usize)
    ensures
        r <= chars@.len(),
        chars@.skip(r as int) == without_question_marks(chars@),
{
    let mut n: usize = 0;
    assert(chars@.skip(0) =~= chars@);
    while n < chars.len() && chars[n] == '?'
        invariant
            n <= chars@.len(),
            without_question_marks(chars@.skip(n as int)) == without_question_marks(chars@),
        decreases chars@.len() - n,
    {
        assert(chars@.skip(n as int).skip(1) =~= chars@.skip(n + 1));
        n = n + 1;
    }
    n
}

impl JsUrlSearchParams {
    /// Reads a query, with or without its question mark.
    pub fn from_query_string(query: &str) -> (r: Self)
        ensures
            r@ == parsed_query(query@),
    {
        let chars = chars_of(query);
        let start: usize = leading_question_marks(&chars);
        let mut params: Vec<(String, String)> = Vec::new();
        assert(pairs_view(params@) =~= Seq::empty());
        if start == chars.len() {
            return JsUrlSearchParams { params };
        }
        let trimmed = string_of(&chars, start, chars.len());
        assert(trimmed@ =~= chars@.skip(start as int));
        let segments = split_on(trimmed.as_str(), '&');
        let ghost q = strings_view(segments@);
        let ghost f = |segment: Seq<char>| parameter(segment);
        let mut i: usize = 0;
        assert(pairs_view(params@) =~= q.take(0).map_values(f));
        while i < segments.len()
            invariant
                i <= segments@.len(),
                q == strings_view(segments@),
                f == (|segment: Seq<char>| parameter(segment)),
                pairs_view(params@) == q.take(i as int).map_values(f),
            decreases segments@.len() - i,
        {
            let ghost before = params@;
            let p = parse_parameter(segments[i].as_str());
            params.push(p);
            proof {
                assert(pairs_view(params@) =~= pairs_view(before).push(pair_view(p)));
                assert(q.take(i + 1).map_values(f) =~= q.take(i as int).map_values(f).push(
                    f(q[i as int]),
                ));
            }
            i = i + 1;
        }
        assert(q.take(i as int) =~= q);
        JsUrlSearchParams { params }
    }

    /// `new URLSearchParams(init)`.
    pub fn new(init: Option<JsInit>) -> (r: Self)
        ensures
            r@ == initial_params(init),
    {
        match init {
            Some(JsInit::Text(query)) => Self::from_query_string(query.as_str()),
            Some(JsInit::List(items)) => JsUrlSearchParams { params: pairs_of_list(items) },
            Some(JsInit::Record(entries)) => JsUrlSearchParams { params: entries },
            _ => {
                let params: Vec<(String, String)> = Vec::new();
                assert(pairs_view(params@) =~= Seq::empty());
                JsUrlSearchParams { params }
            },
        }
    }

    /// The first value of a name.
    pub fn get(&self, name: &str) -> (r: Option<String>)
        ensures
            match r {
                Some(v) => has_name(self@, name@) && v@ == values_of(self@, name@)[0],
                None => !has_name(self@, name@),
            },
    {
        proof {
            lemma_values_iff_name(self@, name@);
        }
        first_named(&self.params, name)
    }

    /// Every value of a name, in order.
    #[allow(non_snake_case)]
    pub fn getAll(&self, name: &str) -> (r: Vec<String>)
        ensures
            strings_view(r@) == values_of(self@, name@),
    {
        values_named(&self.params, name)
    }

    /// Whether a name occurs.
    pub fn has(&self, name: &str) -> (r: bool)
        ensures
            r == has_name(self@, name@),
    {
        contains_name(self.params.as_slice(), name)
    }

    /// Sets a name to a single value: its first parameter takes the value, the
    /// others go; where there is none, one is added at the end.
    pub fn set(&mut self, name: String, value: String)
        ensures
            final(self)@ == with_set(old(self)@, name@, value@),
    {
        let mut list: Vec<(String, String)> = Vec::new();
        std::mem::swap(&mut list, &mut self.params);
        let (mut replaced, found) = replace_named(list, name.as_str(), value.as_str());
        let ghost before = replaced@;
        if !found {
            replaced.push((name, value));
            proof {
                lemma_with_single_absent(old(self)@, name@, value@);
                assert(pairs_view(replaced@) =~= pairs_view(before).push((name@, value@)));
            }
        }
        self.params = replaced;
    }

    /// Adds a parameter at the end.
    pub fn append(&mut self, name: String, value: String)
        ensures
            final(self)@ == old(self)@.push((name@, value@)),
    {
        self.params.push((name, value));
        assert(self@ =~= old(self)@.push((name@, value@)));
    }

    /// Takes every parameter of a name out.
    pub fn delete_param(&mut self, name: &str)
        ensures
            final(self)@ == without_name(old(self)@, name@),
    {
        let mut list: Vec<(String, String)> = Vec::new();
        std::mem::swap(&mut list, &mut self.params);
        self.params = remove_named(list, name);
    }

    /// The query that the parameters are written as.
    #[allow(non_snake_case)]
    pub fn toString(&self) -> (r: String)
        ensures
            r@ == written_query(self@),
    {
        let mut parts: Vec<String> = Vec::new();
        let mut i: usize = 0;
        while i < self.params.len()
            invariant
                i <= self.params@.len(),
                parts@.len() == i,
                forall|j: int|
                    0 <= j < i ==> (#[trigger] parts@[j])@ == written_parameter(
                        pair_view(self.params@[j]),
                    ),
            decreases self.params@.len() - i,
        {
            let mut part = percent_encode(self.params[i].0.as_str());
            part.push('=');
            part.append(percent_encode(self.params[i].1.as_str()).as_str());
            parts.push(part);
            i = i + 1;
        }
        proof {
            reveal_strlit("&");
            assert("&"@ =~= seq!['&']);
            assert(strings_view(parts@) =~= self@.map_values(
                |p: (Seq<char>, Seq<char>)| written_parameter(p),
            ));
        }
        join(&parts, "&")
    }

    /// The names, one for each parameter.
    pub fn keys(&self) -> (r: Vec<String>)
        ensures
            strings_view(r@) == names(self@),
    {
        names_of(&self.params)
    }

    /// The values, one for each parameter.
    pub fn values(&self) -> (r: Vec<String>)
        ensures
            strings_view(r@) == values(self@),
    {
        all_values(&self.params)
    }

    /// The parameters, in order.
    pub fn entries(&self) -> (r: Vec<(String, String)>)
        ensures
            pairs_view(r@) == self@,
    {
        clone_pairs(&self.params)
    }

    /// How many parameters there are.
    pub fn size(&self) -> (r: u32)
        ensures
            r == self@.len() as u32,
    {
        self.params.len() as u32
    }
}

/// Giving an absent name a single value changes nothing.
proof fn lemma_with_single_absent(
    l: Seq<(Seq<char>, Seq<char>)>,
    name: Seq<char>,
    value: Seq<char>,
)
    requires
        !has_name(l, name),
    ensures
        with_single(l, name, value) == l,
    decreases l.len(),
{
    if l.len() > 0 {
        crate::pairs::lemma_has_name_last(l, name);
        lemma_with_single_absent(l.drop_last(), name, value);
        assert(l.drop_last().push(l.last()) =~= l);
    } else {
        assert(with_single(l, name, value) =~= l);
    }
}

/// A text without the character extends the last segment.
proof fn lemma_split_extend(s: Seq<char>, t: Seq<char>, c: char)
    requires
        forall|i: int| 0 <= i < t.len() ==> t[i] != c,
    ensures
        split(s + t, c) == split(s, c).drop_last().push(split(s, c).last() + t),
    decreases t.len(),
{
    lemma_split_nonempty(s, c);
    let p = split(s, c);
    if t.len() == 0 {
        assert(s + t =~= s);
        assert(p.last() + t =~= p.last());
        assert(p.drop_last().push(p.last()) =~= p);
    } else {
        lemma_split_extend(s, t.drop_last(), c);
        assert((s + t).drop_last() =~= s + t.drop_last());
        assert((s + t).last() == t.last());
        let q = p.drop_last().push(p.last() + t.drop_last());
        assert(q.drop_last() =~= p.drop_last());
        assert((p.last() + t.drop_last()).push(t.last()) =~= p.last() + t);
    }
}

/// Splitting undoes joining, where no part holds the separator.
proof fn lemma_split_joined(parts: Seq<Seq<char>>, c: char)
    requires
        parts.len() > 0,
        forall|i: int, j: int|
            0 <= i < parts.len() && 0 <= j < parts[i].len() ==> #[trigger] parts[i][j] != c,
    ensures
        split(joined(parts, seq![c]), c) == parts,
    decreases parts.len(),
{
    let last = parts.last();
    assert forall|j: int| 0 <= j < last.len() implies last[j] != c by {
        assert(parts[parts.len() - 1][j] != c);
    }
    if parts.len() == 1 {
        lemma_split_extend(seq![], last, c);
        assert(Seq::<char>::empty() + last =~= last);
        assert(split(last, c) =~= parts);
    } else {
        let front = parts.drop_last();
        assert forall|i: int, j: int|
            0 <= i < front.len() && 0 <= j < front[i].len() implies #[trigger] front[i][j] != c by {
            assert(parts[i][j] != c);
        }
        lemma_split_joined(front, c);
        let head = joined(front, seq![c]);
        assert(head + seq![c] =~= head.push(c));
        assert(head.push(c).drop_last() =~= head);
        lemma_split_extend(head.push(c), last, c);
        assert(split(head.push(c), c) == front.push(seq![]));
        assert(front.push(seq![]).drop_last() =~= front);
        assert(Seq::<char>::empty() + last =~= last);
        assert(front.push(last) =~= parts);
    }
}

proof fn lemma_written_parameter(p: (Seq<char>, Seq<char>))
    ensures
        parameter(written_parameter(p)) == p,
        written_parameter(p).len() > 0,
        written_parameter(p)[0] != '?',
        forall|j: int| 0 <= j < written_parameter(p).len() ==> written_parameter(p)[j] != '&',
{
    let k = form_encoded(p.0);
    let v = form_encoded(p.1);
    let w = written_parameter(p);
    lemma_encoded_bytes(encode_utf8(p.0));
    lemma_encoded_bytes(encode_utf8(p.1));
    let n = k.len() as int;
    assert forall|j: int| 0 <= j < w.len() implies w[j] != '&' by {
        if j < n {
            assert(w[j] == k[j]);
        } else if j > n {
            assert(w[j] == v[j - n - 1]);
        }
    }
    if n > 0 {
        assert(w[0] == k[0]);
    }
    w.index_of_first_ensures('=');
    assert(w[n] == '=');
    assert(w.contains('='));
    assert(forall|j: int| 0 <= j < n ==> w[j] == k[j]);
    assert(w.take(n) =~= k);
    assert(w.skip(n + 1) =~= v);
    law_decode_undoes_encode(p.0);
    law_decode_undoes_encode(p.1);
}

proof fn lemma_joined_front(parts: Seq<Seq<char>>, separator: Seq<char>)
    requires
        parts.len() > 0,
        parts[0].len() > 0,
    ensures
        joined(parts, separator).len() > 0,
        joined(parts, separator)[0] == parts[0][0],
    decreases parts.len(),
{
    if parts.len() > 1 {
        lemma_joined_front(parts.drop_last(), separator);
    }
}

/// Reading a written query gives the parameters back, for every list.
pub proof fn law_parse_undoes_to_string(l: Seq<(Seq<char>, Seq<char>)>)
    ensures
        parsed_query(written_query(l)) == l,
{
    let f = |p: (Seq<char>, Seq<char>)| written_parameter(p);
    let g = |segment: Seq<char>| parameter(segment);
    let parts = l.map_values(f);
    let q = written_query(l);
    if l.len() == 0 {
        assert(parsed_query(q) =~= l);
    } else {
        assert forall|i: int, j: int|
            0 <= i < parts.len() && 0 <= j < parts[i].len() implies #[trigger] parts[i][j]
            != '&' by {
            lemma_written_parameter(l[i]);
        }
        lemma_written_parameter(l[0]);
        assert(parts[0] == written_parameter(l[0]));
        lemma_joined_front(parts, seq!['&']);
        lemma_split_joined(parts, '&');
        assert(without_question_marks(q) == q);
        assert forall|i: int| 0 <= i < l.len() implies #[trigger] parts.map_values(g)[i] == l[i] by {
            lemma_written_parameter(l[i]);
        }
        assert(parts.map_values(g) =~= l);
    }
}

/// After `set`, a name has that single value, and every other name keeps its values.
pub proof fn law_set(
    l: Seq<(Seq<char>, Seq<char>)>,
    name: Seq<char>,
    value: Seq<char>,
    other: Seq<char>,
)
    ensures
        values_of(with_set(l, name, value), name) == seq![value],
        other != name ==> values_of(with_set(l, name, value), other) == values_of(l, other),
{
    lemma_with_single(l, name, value, name);
    lemma_with_single(l, name, value, other);
    lemma_push_values(l, name, value, name);
    lemma_push_values(l, name, value, other);
    lemma_values_iff_name(l, name);
    if !has_name(l, name) {
        assert(values_of(l, name) =~= seq![]);
        assert(values_of(l, name).push(value) =~= seq![value]);
    }
}

/// After `append`, a name has one value more, at the end, and every other name
/// keeps its values.
pub proof fn law_append(
    l: Seq<(Seq<char>, Seq<char>)>,
    name: Seq<char>,
    value: Seq<char>,
    other: Seq<char>,
)
    ensures
        values_of(l.push((name, value)), name) == values_of(l, name).push(value),
        other != name ==> values_of(l.push((name, value)), other) == values_of(l, other),
{
    lemma_push_values(l, name, value, name);
    lemma_push_values(l, name, value, other);
}

/// After `delete`, a name is gone, and every other name keeps its values.
pub proof fn law_delete(l: Seq<(Seq<char>, Seq<char>)>, name: Seq<char>, other: Seq<char>)
    ensures
        !has_name(without_name(l, name), name),
        other != name ==> values_of(without_name(l, name), other) == values_of(l, other),
{
    lemma_without_name(l, name, name);
    lemma_without_name(l, name, other);
    lemma_values_iff_name(without_name(l, name), name);
}

proof fn lemma_nothing_decoded()
    ensures
        form_decoded(seq![]) == Seq::<char>::empty(),
{
    let none = Seq::<char>::empty();
    law_decode_undoes_encode(none);
    assert(form_encoded(none) =~= none);
}

/// A question mark before a query makes no difference, and an empty query has no
/// parameters.
pub proof fn law_query_mark(query: Seq<char>)
    ensures
        parsed_query(seq!['?'] + query) == parsed_query(query),
        parsed_query(seq![]) == Seq::<(Seq<char>, Seq<char>)>::empty(),
{
    assert((seq!['?'] + query).skip(1) =~= query);
}

/// An ampersand parts a query: the parameters are those of what stands before it
/// and then those of what stands after it. Where nothing stands after it, that is
/// one parameter, with an empty name and an empty value.
pub proof fn law_query_is_parted(a: Seq<char>, b: Seq<char>)
    requires
        a.len() > 0,
        a[0] != '?',
        b.len() > 0 ==> b[0] != '?',
    ensures
        b.len() > 0 ==> parsed_query(a + seq!['&'] + b) == parsed_query(a) + parsed_query(b),
        b.len() == 0 ==> parsed_query(a + seq!['&'] + b) == parsed_query(a).push(
            (Seq::<char>::empty(), Seq::<char>::empty()),
        ),
        b.len() > 0 ==> parsed_query(seq!['&'] + b) == seq![
            (Seq::<char>::empty(), Seq::<char>::empty()),
        ] + parsed_query(b),
{
    let f = |segment: Seq<char>| parameter(segment);
    let none = Seq::<char>::empty();
    let s = a + seq!['&'] + b;
    lemma_split_concat(a, '&', b);
    lemma_split_concat(none, '&', b);
    lemma_nothing_decoded();
    none.index_of_first_ensures('=');
    assert(parameter(none) == (none, none));
    assert(s[0] == a[0]);
    assert(none + seq!['&'] + b =~= seq!['&'] + b);
    assert(split(none, '&') =~= seq![none]);
    if b.len() == 0 {
        assert(b =~= none);
        assert(parsed_query(s) =~= parsed_query(a).push((none, none)));
    } else {
        assert(parsed_query(s) =~= parsed_query(a) + parsed_query(b));
        assert(parsed_query(seq!['&'] + b) =~= seq![(none, none)] + parsed_query(b));
    }
}

/// A segment of a query is one parameter: its name is what stands before the first
/// equals sign and its value all that stands after it, each decoded. Without an
/// equals sign the value is empty.
pub proof fn law_query_of_one_segment(name: Seq<char>, value: Seq<char>)
    requires
        !name.contains('&'),
        !name.contains('='),
        !value.contains('&'),
        name.len() > 0 ==> name[0] != '?',
    ensures
        parsed_query(name + seq!['='] + value) == seq![(form_decoded(name), form_decoded(value))],
        name.len() > 0 ==> parsed_query(name) == seq![(form_decoded(name), Seq::<char>::empty())],
{
    let f = |segment: Seq<char>| parameter(segment);
    let w = name + seq!['='] + value;
    let n = name.len() as int;
    lemma_nothing_decoded();
    lemma_split_single(name, '&');
    assert(!w.contains('&')) by {
        if w.contains('&') {
            let j = choose|j: int| 0 <= j < w.len() && w[j] == '&';
            if j < n {
                assert(name.contains(name[j]));
            } else if j > n {
                assert(value.contains(value[j - n - 1]));
            }
        }
    }
    lemma_split_single(w, '&');
    w.index_of_first_ensures('=');
    name.index_of_first_ensures('=');
    assert(w[n] == '=');
    assert(w.contains('='));
    assert forall|j: int| 0 <= j < n implies w[j] != '=' by {
        assert(w[j] == name[j]);
        assert(name.contains(name[j]));
    }
    assert(w.take(n) =~= name);
    assert(w.skip(n + 1) =~= value);
    if n > 0 {
        assert(w[0] == name[0]);
    }
    assert(parsed_query(w) =~= seq![(form_decoded(name), form_decoded(value))]);
    if n > 0 {
        assert(parsed_query(name) =~= seq![(form_decoded(name), Seq::<char>::empty())]);
    }
}

/// A list of parameters is written parameter by parameter, each as its encoded name,
/// an equals sign and its encoded value, with ampersands between them.
pub proof fn law_written_query(
    a: Seq<(Seq<char>, Seq<char>)>,
    b: Seq<(Seq<char>, Seq<char>)>,
    name: Seq<char>,
    value: Seq<char>,
)
    ensures
        written_query(seq![]) == Seq::<char>::empty(),
        written_query(seq![(name, value)]) == form_encoded(name) + seq!['='] + form_encoded(value),
        a.len() > 0 && b.len() > 0 ==> written_query(a + b) == written_query(a) + seq!['&']
            + written_query(b),
{
    let f = |p: (Seq<char>, Seq<char>)| written_parameter(p);
    let none = Seq::<(Seq<char>, Seq<char>)>::empty();
    assert(none.map_values(f) =~= seq![]);
    assert(seq![(name, value)].map_values(f) =~= seq![written_parameter((name, value))]);
    assert(written_parameter((name, value)) =~= form_encoded(name) + seq!['='] + form_encoded(
        value,
    ));
    assert((a + b).map_values(f) =~= a.map_values(f) + b.map_values(f));
    law_joined(
        a.map_values(f),
        b.map_values(f),
        written_parameter((name, value)),
        seq!['&'],
    );
}

/// `set` gives the first parameter of the name the value and takes its others out,
/// leaving all the rest in order; where there is none, it adds one at the end.
pub proof fn law_set_keeps_order(
    before: Seq<(Seq<char>, Seq<char>)>,
    old_value: Seq<char>,
    after: Seq<(Seq<char>, Seq<char>)>,
    name: Seq<char>,
    value: Seq<char>,
)
    requires
        forall|i: int| 0 <= i < before.len() ==> (#[trigger] before[i]).0 != name,
    ensures
        with_set(before, name, value) == before.push((name, value)),
        with_set(before.push((name, old_value)) + after, name, value) == before.push((name, value))
            + after.filter(|p: (Seq<char>, Seq<char>)| p.0 != name),
{
    law_with_single(before, old_value, after, name, value);
    let l = before.push((name, old_value)) + after;
    assert(l[before.len() as int].0 == name);
}

/// A string argument is read as a query, an array as its pairs and an object as its
/// properties, each in order; without an argument there are no parameters.
pub proof fn law_initial_params(
    text: String,
    items: Vec<Option<(Option<String>, Option<String>)>>,
    entries: Vec<(String, String)>,
    i: int,
)
    ensures
        initial_params(Some(JsInit::Text(text))) == parsed_query(text@),
        initial_params(Some(JsInit::List(items))) == list_pairs(items@),
        initial_params(Some(JsInit::Record(entries))).len() == entries@.len(),
        0 <= i < entries@.len() ==> initial_params(Some(JsInit::Record(entries)))[i] == (
            entries@[i].0@,
            entries@[i].1@,
        ),
        initial_params(None) == Seq::<(Seq<char>, Seq<char>)>::empty(),
        initial_params(Some(JsInit::Other)) == Seq::<(Seq<char>, Seq<char>)>::empty(),
{
}

} // verus!
