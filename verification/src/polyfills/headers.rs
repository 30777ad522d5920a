//! `Headers`: a list of header fields whose names are kept in lowercase.

use super::js_value::{list_pairs, pairs_of_list, JsInit};
use crate::pairs::{
    all_values, clone_pairs, contains_name, distinct_names, distinct_names_of, has_name, join,
    joined, law_values_of, law_without_name, lemma_push_values, lemma_values_iff_name,
    lemma_without_name, remove_named, values, values_named, values_of, without_name,
};
use crate::text::{ascii_lowercase, lowercase, pair_view, pairs_view, strings_view};
use vstd::prelude::*;
use vstd::utf8::is_ascii_chars;

verus! {

/// A list with every name in lowercase.
pub open spec fn lowered(l: Seq<(Seq<char>, Seq<char>)>) -> Seq<(Seq<char>, Seq<char>)> {
    l.map_values(|p: (Seq<char>, Seq<char>)| (lowercase(p.0), p.1))
}

/// The fields that a constructor argument stands for.
pub open spec fn initial_headers(init: Option<JsInit>) -> Seq<(Seq<char>, Seq<char>)> {
    match init {
        Some(JsInit::List(items)) => lowered(list_pairs(items@)),
        Some(JsInit::Record(entries)) => lowered(pairs_view(entries@)),
        _ => seq![],
    }
}

/// What `get` gives for a name: its values, joined with a comma and a space.
pub open spec fn header_value(l: Seq<(Seq<char>, Seq<char>)>, name: Seq<char>) -> Option<
    Seq<char>,
> {
    if has_name(l, lowercase(name)) {
        Some(joined(values_of(l, lowercase(name)), seq![',', ' ']))
    } else {
        None
    }
}

/// What setting a name to a value makes of a list.
pub open spec fn header_set(
    l: Seq<(Seq<char>, Seq<char>)>,
    name: Seq<char>,
    value: Seq<char>,
) -> Seq<(Seq<char>, Seq<char>)> {
    without_name(l, lowercase(name)).push((lowercase(name), value))
}

/// What adding a value to a name makes of a list.
pub open spec fn header_appended(
    l: Seq<(Seq<char>, Seq<char>)>,
    name: Seq<char>,
    value: Seq<char>,
) -> Seq<(Seq<char>, Seq<char>)> {
    l.push((lowercase(name), value))
}

/// What taking a name out makes of a list.
pub open spec fn header_deleted(l: Seq<(Seq<char>, Seq<char>)>, name: Seq<char>) -> Seq<
    (Seq<char>, Seq<char>),
> {
    without_name(l, lowercase(name))
}

/// Whether a name is what some string is in lowercase.
pub open spec fn is_lowered(name: Seq<char>) -> bool {
    exists|s: Seq<char>| name == #[trigger] lowercase(s)
}

/// Whether every name of a list is in lowercase.
pub open spec fn names_lowered(l: Seq<(Seq<char>, Seq<char>)>) -> bool {
    forall|i: int| 0 <= i < l.len() ==> is_lowered((#[trigger] l[i]).0)
}

/// A list of header fields, with the names in lowercase. A name may occur more
/// than once.
pub struct JsHeaders {
    list: Vec<(String, String)>,
}

impl View for JsHeaders {
    type V = Seq<(Seq<char>, Seq<char>)>;

    closed spec fn view(&self) -> Seq<(Seq<char>, Seq<char>)> {
        pairs_view(self.list@)
    }
}

proof fn lemma_lowered(l: Seq<(Seq<char>, Seq<char>)>)
    ensures
        names_lowered(lowered(l)),
{
    assert forall|i: int| 0 <= i < lowered(l).len() implies is_lowered(
        (#[trigger] lowered(l)[i]).0,
    ) by {
        assert(lowered(l)[i].0 == lowercase(l[i].0));
    }
}

proof fn lemma_push_lowered(
    l: Seq<(Seq<char>, Seq<char>)>,
    name: Seq<char>,
    value: Seq<char>,
)
    requires
        names_lowered(l),
    ensures
        names_lowered(header_appended(l, name, value)),
{
    assert(is_lowered(lowercase(name)));
}

proof fn lemma_without_lowered(l: Seq<(Seq<char>, Seq<char>)>, name: Seq<char>)
    requires
        names_lowered(l),
    ensures
        names_lowered(without_name(l, name)),
    decreases l.len(),
{
    if l.len() > 0 {
        assert(is_lowered(l[l.len() - 1].0));
        lemma_without_lowered(l.drop_last(), name);
    }
}

proof fn lemma_distinct_lowered(l: Seq<(Seq<char>, Seq<char>)>)
    requires
        names_lowered(l),
    ensures
        forall|i: int|
            0 <= i < distinct_names(l).len() ==> is_lowered(#[trigger] distinct_names(l)[i]),
    decreases l.len(),
{
    if l.len() > 0 {
        assert(is_lowered(l[l.len() - 1].0));
        lemma_distinct_lowered(l.drop_last());
        let before = distinct_names(l.drop_last());
        assert forall|i: int| 0 <= i < distinct_names(l).len() implies is_lowered(
            #[trigger] distinct_names(l)[i],
        ) by {
            if i < before.len() {
                assert(distinct_names(l)[i] == before[i]);
            }
        }
    }
}

/// A list with every name in lowercase.
fn lower_names(list: Vec<(String, String)>) -> (r: Vec<(String, String)>)
    ensures
        pairs_view(r@) == lowered(pairs_view(list@)),
        names_lowered(pairs_view(r@)),
{
    let mut out: Vec<(String, String)> = Vec::new();
    let ghost whole = list@;
    for pair in it: list
        invariant
            it.seq() == whole,
            out@.len() == it.index(),
            forall|j: int|
                0 <= j < it.index() ==> pair_view(#[trigger] out@[j]) == (
                    lowercase(whole[j].0@),
                    whole[j].1@,
                ),
    {
        let name = pair.0.as_str().to_lowercase();
        out.push((name, pair.1));
    }
    proof {
        assert(pairs_view(out@) =~= lowered(pairs_view(whole)));
        lemma_lowered(pairs_view(whole));
    }
    out
}

impl JsHeaders {
    #[verifier::type_invariant]
    spec fn has_lowered_names(self) -> bool {
        names_lowered(pairs_view(self.list@))
    }

    /// `new Headers(init)`.
    pub fn new(init: Option<JsInit>) -> (r: Self)
        ensures
            r@ == initial_headers(init),
    {
        match init {
            Some(JsInit::List(items)) => JsHeaders { list: lower_names(pairs_of_list(items)) },
            Some(JsInit::Record(entries)) => JsHeaders { list: lower_names(entries) },
            _ => {
                let list: Vec<(String, String)> = Vec::new();
                assert(pairs_view(list@) =~= Seq::empty());
                JsHeaders { list }
            },
        }
    }

    /// The values of a name, joined with a comma and a space.
    pub fn get(&self, name: &str) -> (r: Option<String>)
        ensures
            match r {
                Some(v) => header_value(self@, name@) == Some(v@),
                None => header_value(self@, name@) is None,
            },
    {
        let lower = name.to_lowercase();
        let found = values_named(&self.list, lower.as_str());
        proof {
            lemma_values_iff_name(self@, lower@);
            reveal_strlit(", ");
            assert(", "@ =~= seq![',', ' ']);
            assert(found@.len() == strings_view(found@).len());
        }
        if found.len() == 0 {
            None
        } else {
            Some(join(&found, ", "))
        }
    }

    /// Sets a name to a single value, at the end of the list.
    pub fn set(&mut self, name: &str, value: String)
        ensures
            final(self)@ == header_set(old(self)@, name@, value@),
    {
        proof {
            use_type_invariant(&*self);
        }
        let lower = name.to_lowercase();
        let mut list: Vec<(String, String)> = Vec::new();
        std::mem::swap(&mut list, &mut self.list);
        let mut kept = remove_named(list, lower.as_str());
        let ghost before = kept@;
        kept.push((lower, value));
        proof {
            lemma_without_lowered(old(self)@, lower@);
            lemma_push_lowered(pairs_view(before), name@, value@);
            assert(pairs_view(kept@) =~= pairs_view(before).push((lower@, value@)));
        }
        self.list = kept;
    }

    /// Whether a name occurs.
    pub fn has(&self, name: &str) -> (r: bool)
        ensures
            r == has_name(self@, lowercase(name@)),
    {
        let lower = name.to_lowercase();
        contains_name(self.list.as_slice(), lower.as_str())
    }

    /// Takes every field of a name out.
    pub fn delete_header(&mut self, name: &str)
        ensures
            final(self)@ == header_deleted(old(self)@, name@),
    {
        proof {
            use_type_invariant(&*self);
        }
        let lower = name.to_lowercase();
        let mut list: Vec<(String, String)> = Vec::new();
        std::mem::swap(&mut list, &mut self.list);
        proof {
            lemma_without_lowered(old(self)@, lower@);
        }
        self.list = remove_named(list, lower.as_str());
    }

    /// Adds a field at the end.
    pub fn append(&mut self, name: &str, value: String)
        ensures
            final(self)@ == header_appended(old(self)@, name@, value@),
    {
        proof {
            use_type_invariant(&*self);
        }
        let lower = name.to_lowercase();
        let mut list: Vec<(String, String)> = Vec::new();
        std::mem::swap(&mut list, &mut self.list);
        list.push((lower, value));
        proof {
            lemma_push_lowered(old(self)@, name@, value@);
            assert(pairs_view(list@) =~= old(self)@.push((lower@, value@)));
        }
        self.list = list;
    }

    /// The fields, in order.
    pub fn entries(&self) -> (r: Vec<(String, String)>)
        ensures
            pairs_view(r@) == self@,
            names_lowered(pairs_view(r@)),
    {
        proof {
            use_type_invariant(self);
        }
        clone_pairs(&self.list)
    }

    /// The names, each once, in the order in which they first occur.
    pub fn keys(&self) -> (r: Vec<String>)
        ensures
            strings_view(r@) == distinct_names(self@),
            forall|i: int| 0 <= i < r@.len() ==> is_lowered(#[trigger] r@[i]@),
    {
        proof {
            use_type_invariant(self);
            lemma_distinct_lowered(self@);
        }
        let names = distinct_names_of(&self.list);
        assert forall|i: int| 0 <= i < names@.len() implies is_lowered(#[trigger] names@[i]@) by {
            assert(strings_view(names@)[i] == names@[i]@);
        }
        names
    }

    /// The values, one for each field.
    pub fn values(&self) -> (r: Vec<String>)
        ensures
            strings_view(r@) == values(self@),
    {
        all_values(&self.list)
    }

    /// The cookies that the fields set, one for each `set-cookie` field.
    pub fn get_set_cookie(&self) -> (r: Vec<String>)
        ensures
            strings_view(r@) == values_of(self@, "set-cookie"@),
    {
        values_named(&self.list, "set-cookie")
    }
}

/// The case of ASCII letters in a name makes no difference.
pub proof fn law_names_ignore_case(
    l: Seq<(Seq<char>, Seq<char>)>,
    a: Seq<char>,
    b: Seq<char>,
    value: Seq<char>,
)
    requires
        is_ascii_chars(a),
        is_ascii_chars(b),
        ascii_lowercase(a) == ascii_lowercase(b),
    ensures
        header_value(l, a) == header_value(l, b),
        header_set(l, a, value) == header_set(l, b, value),
        header_appended(l, a, value) == header_appended(l, b, value),
        header_deleted(l, a) == header_deleted(l, b),
{
}

/// No operation brings in a name that is not in lowercase: what a list of header
/// fields begins with has none, and setting, adding and taking out keep it so.
pub proof fn law_names_stay_lowered(
    init: Option<JsInit>,
    l: Seq<(Seq<char>, Seq<char>)>,
    name: Seq<char>,
    value: Seq<char>,
)
    requires
        names_lowered(l),
    ensures
        names_lowered(initial_headers(init)),
        names_lowered(header_set(l, name, value)),
        names_lowered(header_appended(l, name, value)),
        names_lowered(header_deleted(l, name)),
{
    match init {
        Some(JsInit::List(items)) => {
            lemma_lowered(list_pairs(items@));
        },
        Some(JsInit::Record(entries)) => {
            lemma_lowered(pairs_view(entries@));
        },
        _ => {},
    }
    lemma_without_lowered(l, lowercase(name));
    lemma_push_lowered(l, name, value);
    lemma_push_lowered(without_name(l, lowercase(name)), name, value);
}

/// Headers that are made from the fields of other headers have the same fields.
pub proof fn law_copy_of_headers(l: Seq<(Seq<char>, Seq<char>)>)
    requires
        forall|i: int| 0 <= i < l.len() ==> is_ascii_chars((#[trigger] l[i]).0),
    ensures
        lowered(lowered(l)) == lowered(l),
{
    assert forall|i: int| 0 <= i < l.len() implies #[trigger] lowered(lowered(l))[i] == lowered(
        l,
    )[i] by {
        let name = l[i].0;
        assert(is_ascii_chars(name));
        let lower = ascii_lowercase(name);
        assert(is_ascii_chars(lower)) by {
            assert forall|j: int| 0 <= j < lower.len() implies '\0' <= #[trigger] lower[j]
                <= '\u{7f}' by {
                assert('\0' <= name[j] <= '\u{7f}');
            }
        }
        assert(ascii_lowercase(lower) =~= lower);
    }
    assert(lowered(lowered(l)) =~= lowered(l));
}

/// After `set`, `get` gives that value, and every other name keeps its value.
pub proof fn law_header_set(
    l: Seq<(Seq<char>, Seq<char>)>,
    name: Seq<char>,
    value: Seq<char>,
    other: Seq<char>,
)
    ensures
        header_value(header_set(l, name, value), name) == Some(value),
        lowercase(other) != lowercase(name) ==> header_value(header_set(l, name, value), other)
            == header_value(l, other),
{
    let k = lowercase(name);
    let o = lowercase(other);
    let w = without_name(l, k);
    lemma_without_name(l, k, k);
    lemma_without_name(l, k, o);
    lemma_push_values(w, k, value, k);
    lemma_push_values(w, k, value, o);
    lemma_values_iff_name(w.push((k, value)), k);
    lemma_values_iff_name(w.push((k, value)), o);
    lemma_values_iff_name(l, o);
    assert(Seq::<Seq<char>>::empty().push(value) =~= seq![value]);
}

/// After `append`, the value of a name has one part more, and every other name
/// keeps its value.
pub proof fn law_header_append(
    l: Seq<(Seq<char>, Seq<char>)>,
    name: Seq<char>,
    value: Seq<char>,
    other: Seq<char>,
)
    ensures
        header_value(header_appended(l, name, value), name) == Some(
            match header_value(l, name) {
                Some(before) => before + seq![',', ' '] + value,
                None => value,
            },
        ),
        lowercase(other) != lowercase(name) ==> header_value(
            header_appended(l, name, value),
            other,
        ) == header_value(l, other),
{
    let k = lowercase(name);
    let o = lowercase(other);
    let more = l.push((k, value));
    lemma_push_values(l, k, value, k);
    lemma_push_values(l, k, value, o);
    lemma_values_iff_name(more, k);
    lemma_values_iff_name(more, o);
    lemma_values_iff_name(l, k);
    lemma_values_iff_name(l, o);
    assert(values_of(more, k).drop_last() =~= values_of(l, k));
}

/// After `delete`, a name has no value, and every other name keeps its value.
pub proof fn law_header_delete(
    l: Seq<(Seq<char>, Seq<char>)>,
    name: Seq<char>,
    other: Seq<char>,
)
    ensures
        header_value(header_deleted(l, name), name) is None,
        lowercase(other) != lowercase(name) ==> header_value(header_deleted(l, name), other)
            == header_value(l, other),
{
    let k = lowercase(name);
    let o = lowercase(other);
    lemma_without_name(l, k, k);
    lemma_without_name(l, k, o);
    lemma_values_iff_name(without_name(l, k), k);
    lemma_values_iff_name(without_name(l, k), o);
    lemma_values_iff_name(l, o);
}

/// Headers that are made from an array or an object have its pairs in order, with
/// the names in lowercase and the values as they were; any other argument gives
/// none.
pub proof fn law_initial_headers(
    items: Vec<Option<(Option<String>, Option<String>)>>,
    entries: Vec<(String, String)>,
    text: String,
    i: int,
)
    ensures
        ({
            let h = initial_headers(Some(JsInit::List(items)));
            let l = list_pairs(items@);
            &&& h.len() == l.len()
            &&& 0 <= i < l.len() ==> h[i].0 == lowercase(l[i].0) && h[i].1 == l[i].1
        }),
        ({
            let h = initial_headers(Some(JsInit::Record(entries)));
            &&& h.len() == entries@.len()
            &&& 0 <= i < entries@.len() ==> h[i].0 == lowercase(entries@[i].0@) && h[i].1
                == entries@[i].1@
        }),
        initial_headers(None) == Seq::<(Seq<char>, Seq<char>)>::empty(),
        initial_headers(Some(JsInit::Other)) == Seq::<(Seq<char>, Seq<char>)>::empty(),
        initial_headers(Some(JsInit::Text(text))) == Seq::<(Seq<char>, Seq<char>)>::empty(),
{
}

/// Setting a name takes its fields out and adds one at the end, adding puts a field
/// at the end, and deleting takes the fields of the name out. All other fields stay
/// as they are and in order.
pub proof fn law_header_order(
    l: Seq<(Seq<char>, Seq<char>)>,
    name: Seq<char>,
    value: Seq<char>,
)
    ensures
        header_set(l, name, value) == l.filter(
            |p: (Seq<char>, Seq<char>)| p.0 != lowercase(name),
        ).push((lowercase(name), value)),
        header_appended(l, name, value) == l.push((lowercase(name), value)),
        header_deleted(l, name) == l.filter(|p: (Seq<char>, Seq<char>)| p.0 != lowercase(name)),
{
    law_without_name(l, lowercase(name));
}

/// What a name gives: nothing where it has no field, and else the values of all its
/// fields in order, with a comma and a space between them.
pub proof fn law_header_value(l: Seq<(Seq<char>, Seq<char>)>, name: Seq<char>)
    ensures
        ({
            let fields = l.filter(|p: (Seq<char>, Seq<char>)| p.0 == lowercase(name));
            &&& fields.len() == 0 ==> header_value(l, name) is None
            &&& fields.len() > 0 ==> header_value(l, name) == Some(
                joined(fields.map_values(|p: (Seq<char>, Seq<char>)| p.1), ", "@),
            )
        }),
{
    law_values_of(l, lowercase(name));
    lemma_values_iff_name(l, lowercase(name));
    reveal_strlit(", ");
    assert(", "@ =~= seq![',', ' ']);
}

} // verus!
