//! Lists of name and value pairs in which a name may occur more than once.

use crate::text::{pair_view, pairs_view, str_eq, strings_view};
use vstd::prelude::*;

verus! {

/// Whether a name occurs in a list.
pub open spec fn has_name(l: Seq<(Seq<char>, Seq<char>)>, name: Seq<char>) -> bool {
    exists|i: int| 0 <= i < l.len() && (#[trigger] l[i]).0 == name
}

/// The values of a name, in the order of the list.
pub open spec fn values_of(l: Seq<(Seq<char>, Seq<char>)>, name: Seq<char>) -> Seq<Seq<char>>
    decreases l.len(),
{
    if l.len() == 0 {
        seq![]
    } else {
        let before = values_of(l.drop_last(), name);
        if l.last().0 == name {
            before.push(l.last().1)
        } else {
            before
        }
    }
}

/// A list without the pairs of a name.
pub open spec fn without_name(l: Seq<(Seq<char>, Seq<char>)>, name: Seq<char>) -> Seq<
    (Seq<char>, Seq<char>),
>
    decreases l.len(),
{
    if l.len() == 0 {
        seq![]
    } else {
        let before = without_name(l.drop_last(), name);
        if l.last().0 == name {
            before
        } else {
            before.push(l.last())
        }
    }
}

/// A list in which the first pair of a name holds a new value and its other
/// pairs are gone.
pub open spec fn with_single(
    l: Seq<(Seq<char>, Seq<char>)>,
    name: Seq<char>,
    value: Seq<char>,
) -> Seq<(Seq<char>, Seq<char>)>
    decreases l.len(),
{
    if l.len() == 0 {
        seq![]
    } else {
        let before = with_single(l.drop_last(), name, value);
        if l.last().0 != name {
            before.push(l.last())
        } else if has_name(l.drop_last(), name) {
            before
        } else {
            before.push((name, value))
        }
    }
}

/// The names of a list.
pub open spec fn names(l: Seq<(Seq<char>, Seq<char>)>) -> Seq<Seq<char>> {
    Seq::new(l.len(), |i: int| l[i].0)
}

/// The values of a list.
pub open spec fn values(l: Seq<(Seq<char>, Seq<char>)>) -> Seq<Seq<char>> {
    Seq::new(l.len(), |i: int| l[i].1)
}

/// The names of a list, each once, in the order in which they first occur.
pub open spec fn distinct_names(l: Seq<(Seq<char>, Seq<char>)>) -> Seq<Seq<char>>
    decreases l.len(),
{
    if l.len() == 0 {
        seq![]
    } else {
        let before = distinct_names(l.drop_last());
        if has_name(l.drop_last(), l.last().0) {
            before
        } else {
            before.push(l.last().0)
        }
    }
}

/// Strings joined with a separator between them.
pub open spec fn joined(parts: Seq<Seq<char>>, separator: Seq<char>) -> Seq<char>
    decreases parts.len(),
{
    if parts.len() == 0 {
        seq![]
    } else if parts.len() == 1 {
        parts[0]
    } else {
        joined(parts.drop_last(), separator) + separator + parts.last()
    }
}

/// A copy of a list.
pub fn clone_pairs(list: &Vec<(String, String)>) -> (r: Vec<(String, String)>)
    ensures
        r@ == list@,
{
    let mut out: Vec<(String, String)> = Vec::new();
    let mut i: usize = 0;
    while i < list.len()
        invariant
            i <= list@.len(),
            out@ == list@.take(i as int),
        decreases list@.len() - i,
    {
        let p = (list[i].0.clone(), list[i].1.clone());
        proof {
            assert(p == list@[i as int]);
            assert(list@.take(i + 1) =~= list@.take(i as int).push(p));
        }
        out.push(p);
        i = i + 1;
    }
    assert(list@.take(i as int) =~= list@);
    out
}

/// Whether a name occurs in a list.
pub fn contains_name(list: &[(String, String)], name: &str) -> (r: bool)
    ensures
        r == has_name(pairs_view(list@), name@),
{
    let mut i: usize = 0;
    let ghost l = pairs_view(list@);
    while i < list.len()
        invariant
            i <= list@.len(),
            l == pairs_view(list@),
            forall|j: int| 0 <= j < i ==> (#[trigger] l[j]).0 != name@,
        decreases list@.len() - i,
    {
        if str_eq(list[i].0.as_str(), name) {
            assert(l[i as int].0 == name@);
            return true;
        }
        i = i + 1;
    }
    false
}

/// The values of a name, in the order of the list.
pub fn values_named(list: &Vec<(String, String)>, name: &str) -> (r: Vec<String>)
    ensures
        strings_view(r@) == values_of(pairs_view(list@), name@),
{
    let mut out: Vec<String> = Vec::new();
    let ghost l = pairs_view(list@);
    let mut i: usize = 0;
    assert(strings_view(out@) =~= values_of(l.take(0), name@));
    while i < list.len()
        invariant
            i <= list@.len(),
            l == pairs_view(list@),
            strings_view(out@) == values_of(l.take(i as int), name@),
        decreases list@.len() - i,
    {
        let ghost before = out@;
        proof {
            assert(l.take(i + 1).drop_last() =~= l.take(i as int));
        }
        if str_eq(list[i].0.as_str(), name) {
            out.push(list[i].1.clone());
            proof {
                assert(strings_view(out@) =~= strings_view(before).push(l[i as int].1));
            }
        }
        i = i + 1;
    }
    assert(l.take(i as int) =~= l);
    out
}

/// The first value of a name.
pub fn first_named(list: &Vec<(String, String)>, name: &str) -> (r: Option<String>)
    ensures
        match r {
            Some(v) => values_of(pairs_view(list@), name@).len() > 0 && v@ == values_of(
                pairs_view(list@),
                name@,
            )[0],
            None => values_of(pairs_view(list@), name@).len() == 0,
        },
{
    let ghost l = pairs_view(list@);
    let mut i: usize = 0;
    while i < list.len()
        invariant
            i <= list@.len(),
            l == pairs_view(list@),
            values_of(l.take(i as int), name@).len() == 0,
        decreases list@.len() - i,
    {
        proof {
            assert(l.take(i + 1).drop_last() =~= l.take(i as int));
        }
        if str_eq(list[i].0.as_str(), name) {
            proof {
                lemma_values_extend(l, name@, i + 1);
            }
            return Some(list[i].1.clone());
        }
        i = i + 1;
    }
    assert(l.take(i as int) =~= l);
    None
}

/// The values that a prefix of a list has for a name come first in the whole list.
proof fn lemma_values_extend(l: Seq<(Seq<char>, Seq<char>)>, name: Seq<char>, n: int)
    requires
        0 <= n <= l.len(),
    ensures
        values_of(l.take(n), name).len() <= values_of(l, name).len(),
        forall|j: int|
            0 <= j < values_of(l.take(n), name).len() ==> values_of(l, name)[j] == values_of(
                l.take(n),
                name,
            )[j],
    decreases l.len(),
{
    if n == l.len() {
        assert(l.take(n) =~= l);
    } else {
        lemma_values_extend(l.drop_last(), name, n);
        assert(l.drop_last().take(n) =~= l.take(n));
    }
}

/// A list without the pairs of a name.
pub fn remove_named(list: Vec<(String, String)>, name: &str) -> (r: Vec<(String, String)>)
    ensures
        pairs_view(r@) == without_name(pairs_view(list@), name@),
{
    let mut out: Vec<(String, String)> = Vec::new();
    let ghost whole = list@;
    let ghost l = pairs_view(list@);
    assert(pairs_view(out@) =~= without_name(l.take(0), name@));
    for pair in it: list
        invariant
            it.seq() == whole,
            l == pairs_view(whole),
            pairs_view(out@) == without_name(l.take(it.index()), name@),
    {
        let ghost before = out@;
        proof {
            assert(l.take(it.index() + 1).drop_last() =~= l.take(it.index()));
        }
        if !str_eq(pair.0.as_str(), name) {
            out.push(pair);
            proof {
                assert(pairs_view(out@) =~= pairs_view(before).push(pair_view(pair)));
            }
        }
    }
    assert(l.take(l.len() as int) =~= l);
    out
}

/// A list in which the first pair of a name holds a new value and its other
/// pairs are gone; and whether the name occurred.
pub fn replace_named(list: Vec<(String, String)>, name: &str, value: &str) -> (r: (
    Vec<(String, String)>,
    bool,
))
    ensures
        pairs_view(r.0@) == with_single(pairs_view(list@), name@, value@),
        r.1 == has_name(pairs_view(list@), name@),
{
    let mut out: Vec<(String, String)> = Vec::new();
    let mut found: bool = false;
    let ghost whole = list@;
    let ghost l = pairs_view(list@);
    assert(pairs_view(out@) =~= with_single(l.take(0), name@, value@));
    for pair in it: list
        invariant
            it.seq() == whole,
            l == pairs_view(whole),
            found == has_name(l.take(it.index()), name@),
            pairs_view(out@) == with_single(l.take(it.index()), name@, value@),
    {
        let ghost before = out@;
        let ghost n = it.index();
        proof {
            assert(l.take(n + 1).drop_last() =~= l.take(n));
            assert(l.take(n + 1)[n] == l[n]);
            assert(forall|j: int| 0 <= j < n ==> l.take(n + 1)[j] == l.take(n)[j]);
        }
        if !str_eq(pair.0.as_str(), name) {
            out.push(pair);
            proof {
                assert(pairs_view(out@) =~= pairs_view(before).push(pair_view(pair)));
                assert(has_name(l.take(n + 1), name@) == has_name(l.take(n), name@));
            }
        } else {
            if !found {
                let fresh = (name.to_string(), value.to_string());
                out.push(fresh);
                proof {
                    assert(pairs_view(out@) =~= pairs_view(before).push((name@, value@)));
                }
            }
            proof {
                assert(l.take(n + 1)[n].0 == name@);
            }
            found = true;
        }
    }
    assert(l.take(l.len() as int) =~= l);
    (out, found)
}

/// The names of a list.
pub fn names_of(list: &Vec<(String, String)>) -> (r: Vec<String>)
    ensures
        strings_view(r@) == names(pairs_view(list@)),
{
    let mut out: Vec<String> = Vec::new();
    let mut i: usize = 0;
    while i < list.len()
        invariant
            i <= list@.len(),
            out@.len() == i,
            forall|j: int| 0 <= j < i ==> (#[trigger] out@[j])@ == list@[j].0@,
        decreases list@.len() - i,
    {
        out.push(list[i].0.clone());
        i = i + 1;
    }
    assert(strings_view(out@) =~= names(pairs_view(list@)));
    out
}

/// The values of a list.
pub fn all_values(list: &Vec<(String, String)>) -> (r: Vec<String>)
    ensures
        strings_view(r@) == values(pairs_view(list@)),
{
    let mut out: Vec<String> = Vec::new();
    let mut i: usize = 0;
    while i < list.len()
        invariant
            i <= list@.len(),
            out@.len() == i,
            forall|j: int| 0 <= j < i ==> (#[trigger] out@[j])@ == list@[j].1@,
        decreases list@.len() - i,
    {
        out.push(list[i].1.clone());
        i = i + 1;
    }
    assert(strings_view(out@) =~= values(pairs_view(list@)));
    out
}

/// The names of a list, each once, in the order in which they first occur.
pub fn distinct_names_of(list: &Vec<(String, String)>) -> (r: Vec<String>)
    ensures
        strings_view(r@) == distinct_names(pairs_view(list@)),
{
    let mut out: Vec<String> = Vec::new();
    let ghost l = pairs_view(list@);
    let mut i: usize = 0;
    assert(strings_view(out@) =~= distinct_names(l.take(0)));
    while i < list.len()
        invariant
            i <= list@.len(),
            l == pairs_view(list@),
            strings_view(out@) == distinct_names(l.take(i as int)),
        decreases list@.len() - i,
    {
        let ghost before = out@;
        let mut seen: bool = false;
        let mut k: usize = 0;
        while k < i && !seen
            invariant
                k <= i < list@.len(),
                l == pairs_view(list@),
                seen == has_name(l.take(k as int), l[i as int].0),
            decreases i - k,
        {
            proof {
                assert(forall|j: int| 0 <= j < k ==> l.take(k + 1)[j] == l.take(k as int)[j]);
                assert(l.take(k + 1)[k as int] == l[k as int]);
            }
            seen = str_eq(list[k].0.as_str(), list[i].0.as_str());
            k = k + 1;
        }
        proof {
            assert(l.take(i + 1).drop_last() =~= l.take(i as int));
            if seen {
                let w = choose|j: int|
                    0 <= j < l.take(k as int).len() && (#[trigger] l.take(k as int)[j]).0
                        == l[i as int].0;
                assert(l.take(i as int)[w].0 == l[i as int].0);
            }
        }
        if !seen {
            out.push(list[i].0.clone());
            proof {
                assert(strings_view(out@) =~= strings_view(before).push(l[i as int].0));
            }
        }
        i = i + 1;
    }
    assert(l.take(i as int) =~= l);
    out
}

/// Strings joined with a separator between them.
pub fn join(parts: &Vec<String>, separator: &str) -> (r: String)
    ensures
        r@ == joined(strings_view(parts@), separator@),
{
    let mut out = String::new();
    let ghost p = strings_view(parts@);
    let mut i: usize = 0;
    assert(out@ =~= joined(p.take(0), separator@));
    while i < parts.len()
        invariant
            i <= parts@.len(),
            p == strings_view(parts@),
            out@ == joined(p.take(i as int), separator@),
        decreases parts@.len() - i,
    {
        proof {
            assert(p.take(i + 1).drop_last() =~= p.take(i as int));
        }
        let ghost before = out@;
        if i > 0 {
            out.append(separator);
        }
        out.append(parts[i].as_str());
        proof {
            if i == 0 {
                assert(out@ =~= p[0]);
            } else {
                assert(out@ =~= before + separator@ + p[i as int]);
            }
        }
        i = i + 1;
    }
    assert(p.take(i as int) =~= p);
    out
}

/// A name has values exactly when it occurs.
pub proof fn lemma_values_iff_name(l: Seq<(Seq<char>, Seq<char>)>, name: Seq<char>)
    ensures
        has_name(l, name) <==> values_of(l, name).len() > 0,
    decreases l.len(),
{
    if l.len() > 0 {
        lemma_values_iff_name(l.drop_last(), name);
        if has_name(l.drop_last(), name) {
            let i = choose|i: int|
                0 <= i < l.drop_last().len() && (#[trigger] l.drop_last()[i]).0 == name;
            assert(l[i].0 == name);
        }
        if has_name(l, name) && l.last().0 != name {
            let i = choose|i: int| 0 <= i < l.len() && (#[trigger] l[i]).0 == name;
            assert(l.drop_last()[i].0 == name);
        }
    }
}

/// Taking a name out leaves the values of every other name as they were.
pub proof fn lemma_without_name(
    l: Seq<(Seq<char>, Seq<char>)>,
    name: Seq<char>,
    other: Seq<char>,
)
    ensures
        values_of(without_name(l, name), other) == (if other == name {
            seq![]
        } else {
            values_of(l, other)
        }),
    decreases l.len(),
{
    if l.len() > 0 {
        lemma_without_name(l.drop_last(), name, other);
        let w = without_name(l.drop_last(), name);
        if l.last().0 != name {
            assert(w.push(l.last()).drop_last() =~= w);
        }
    }
}

/// What the single value of a name does to the values of every name.
pub proof fn lemma_with_single(
    l: Seq<(Seq<char>, Seq<char>)>,
    name: Seq<char>,
    value: Seq<char>,
    other: Seq<char>,
)
    ensures
        values_of(with_single(l, name, value), other) == (if other != name {
            values_of(l, other)
        } else if has_name(l, name) {
            seq![value]
        } else {
            seq![]
        }),
    decreases l.len(),
{
    if l.len() > 0 {
        lemma_with_single(l.drop_last(), name, value, other);
        let w = with_single(l.drop_last(), name, value);
        lemma_has_name_last(l, name);
        if l.last().0 != name {
            assert(w.push(l.last()).drop_last() =~= w);
        } else if !has_name(l.drop_last(), name) {
            assert(w.push((name, value)).drop_last() =~= w);
            assert(Seq::<Seq<char>>::empty().push(value) =~= seq![value]);
        }
    }
}

/// A name occurs in a list if it is the last one or occurs before.
pub proof fn lemma_has_name_last(l: Seq<(Seq<char>, Seq<char>)>, name: Seq<char>)
    requires
        l.len() > 0,
    ensures
        has_name(l, name) == (l.last().0 == name || has_name(l.drop_last(), name)),
{
    if has_name(l.drop_last(), name) {
        let i = choose|i: int|
            0 <= i < l.drop_last().len() && (#[trigger] l.drop_last()[i]).0 == name;
        assert(l[i].0 == name);
    }
    if has_name(l, name) && l.last().0 != name {
        let i = choose|i: int| 0 <= i < l.len() && (#[trigger] l[i]).0 == name;
        assert(l.drop_last()[i].0 == name);
    }
    if l.last().0 == name {
        assert(l[l.len() - 1].0 == name);
    }
}

/// Adding a pair adds its value to those of its name and to no other.
pub proof fn lemma_push_values(
    l: Seq<(Seq<char>, Seq<char>)>,
    name: Seq<char>,
    value: Seq<char>,
    other: Seq<char>,
)
    ensures
        values_of(l.push((name, value)), other) == (if other == name {
            values_of(l, name).push(value)
        } else {
            values_of(l, other)
        }),
{
    assert(l.push((name, value)).drop_last() =~= l);
}

/// Joining keeps every part whole and puts the separator between two parts and
/// nowhere else.
pub proof fn law_joined(
    a: Seq<Seq<char>>,
    b: Seq<Seq<char>>,
    part: Seq<char>,
    separator: Seq<char>,
)
    ensures
        joined(seq![], separator) == Seq::<char>::empty(),
        joined(seq![part], separator) == part,
        a.len() > 0 && b.len() > 0 ==> joined(a + b, separator) == joined(a, separator) + separator
            + joined(b, separator),
    decreases b.len(),
{
    if a.len() > 0 && b.len() > 0 {
        assert((a + b).drop_last() =~= a + b.drop_last());
        if b.len() == 1 {
            assert(a + b.drop_last() =~= a);
        } else {
            law_joined(a, b.drop_last(), part, separator);
            assert(joined(a + b, separator) =~= joined(a, separator) + separator + joined(
                b,
                separator,
            ));
        }
    }
}

/// The values of a name are those of the pairs with that name, all of them and in
/// order; a name occurs where one of the names is that name.
pub proof fn law_values_of(l: Seq<(Seq<char>, Seq<char>)>, name: Seq<char>)
    ensures
        values_of(l, name) == l.filter(|p: (Seq<char>, Seq<char>)| p.0 == name).map_values(
            |p: (Seq<char>, Seq<char>)| p.1,
        ),
        has_name(l, name) <==> l.map_values(|p: (Seq<char>, Seq<char>)| p.0).contains(name),
    decreases l.len(),
{
    reveal(Seq::filter);
    let f = |p: (Seq<char>, Seq<char>)| p.0 == name;
    let g = |p: (Seq<char>, Seq<char>)| p.1;
    let h = |p: (Seq<char>, Seq<char>)| p.0;
    if l.len() == 0 {
        assert(values_of(l, name) =~= l.filter(f).map_values(g));
    } else {
        law_values_of(l.drop_last(), name);
        assert(values_of(l, name) =~= l.filter(f).map_values(g));
    }
    if has_name(l, name) {
        let i = choose|i: int| 0 <= i < l.len() && (#[trigger] l[i]).0 == name;
        assert(l.map_values(h)[i] == name);
    }
    if l.map_values(h).contains(name) {
        let i = choose|i: int| 0 <= i < l.len() && l.map_values(h)[i] == name;
        assert(l[i].0 == name);
    }
}

/// Taking a name out leaves every other pair, in order.
pub proof fn law_without_name(l: Seq<(Seq<char>, Seq<char>)>, name: Seq<char>)
    ensures
        without_name(l, name) == l.filter(|p: (Seq<char>, Seq<char>)| p.0 != name),
    decreases l.len(),
{
    reveal(Seq::filter);
    if l.len() > 0 {
        law_without_name(l.drop_last(), name);
    }
    assert(without_name(l, name) =~= l.filter(|p: (Seq<char>, Seq<char>)| p.0 != name));
}

/// Giving a name a single value puts it where the name first occurs, takes the
/// other pairs of the name out and leaves the rest as it was.
pub proof fn law_with_single(
    before: Seq<(Seq<char>, Seq<char>)>,
    old_value: Seq<char>,
    after: Seq<(Seq<char>, Seq<char>)>,
    name: Seq<char>,
    value: Seq<char>,
)
    requires
        forall|i: int| 0 <= i < before.len() ==> (#[trigger] before[i]).0 != name,
    ensures
        with_single(before, name, value) == before,
        with_single(before.push((name, old_value)) + after, name, value) == before.push(
            (name, value),
        ) + after.filter(|p: (Seq<char>, Seq<char>)| p.0 != name),
    decreases before.len() + after.len(),
{
    reveal(Seq::filter);
    let f = |p: (Seq<char>, Seq<char>)| p.0 != name;
    if before.len() == 0 {
        assert(with_single(before, name, value) =~= before);
    } else {
        law_with_single(before.drop_last(), old_value, seq![], name, value);
        assert(before.drop_last().push(before.last()) =~= before);
        assert(before[before.len() - 1].0 != name);
        assert(with_single(before, name, value) =~= before);
    }
    let head = before.push((name, old_value));
    let l = head + after;
    if after.len() == 0 {
        assert(l.drop_last() =~= before);
        assert(!has_name(before, name));
        assert(after.filter(f) =~= after);
        assert(l.last() == (name, old_value));
        assert(with_single(l.drop_last(), name, value) == before);
        assert(with_single(l, name, value) =~= before.push((name, value)));
    } else {
        law_with_single(before, old_value, after.drop_last(), name, value);
        assert(l.drop_last() =~= head + after.drop_last());
        assert((head + after.drop_last())[before.len() as int].0 == name);
        assert(with_single(l, name, value) =~= before.push((name, value)) + after.filter(f));
    }
}

/// The names and the values of a list are those of its pairs, one for each.
pub proof fn law_names_and_values(l: Seq<(Seq<char>, Seq<char>)>)
    ensures
        names(l) == l.map_values(|p: (Seq<char>, Seq<char>)| p.0),
        values(l) == l.map_values(|p: (Seq<char>, Seq<char>)| p.1),
{
    assert(names(l) =~= l.map_values(|p: (Seq<char>, Seq<char>)| p.0));
    assert(values(l) =~= l.map_values(|p: (Seq<char>, Seq<char>)| p.1));
}

/// The distinct names of a list are its names without repeats: those of its start
/// come first, and what follows adds the names that did not occur before.
pub proof fn law_distinct_names(a: Seq<(Seq<char>, Seq<char>)>, p: (Seq<char>, Seq<char>))
    ensures
        distinct_names(seq![]) == Seq::<Seq<char>>::empty(),
        distinct_names(a.push(p)) == (if a.map_values(|q: (Seq<char>, Seq<char>)| q.0).contains(
            p.0,
        ) {
            distinct_names(a)
        } else {
            distinct_names(a).push(p.0)
        }),
        distinct_names(a).no_duplicates(),
        forall|name: Seq<char>| #[trigger]
            distinct_names(a).contains(name) <==> a.map_values(
                |q: (Seq<char>, Seq<char>)| q.0,
            ).contains(name),
    decreases a.len(),
{
    let h = |q: (Seq<char>, Seq<char>)| q.0;
    law_values_of(a, p.0);
    assert(a.push(p).drop_last() =~= a);
    if a.len() > 0 {
        let b = a.drop_last();
        let x = a.last().0;
        let d = distinct_names(b);
        law_distinct_names(b, p);
        law_values_of(b, x);
        assert(distinct_names(a) == if has_name(b, x) {
            d
        } else {
            d.push(x)
        });
        assert forall|name: Seq<char>| #[trigger]
            distinct_names(a).contains(name) <==> a.map_values(h).contains(name) by {
            assert(d.contains(name) <==> b.map_values(h).contains(name));
            if a.map_values(h).contains(name) {
                let i = choose|i: int| 0 <= i < a.len() && a.map_values(h)[i] == name;
                if i < b.len() {
                    assert(b.map_values(h)[i] == name);
                    let k = choose|k: int| 0 <= k < d.len() && d[k] == name;
                    assert(distinct_names(a)[k] == name);
                } else {
                    assert(name == x);
                    if has_name(b, x) {
                        assert(d.contains(x));
                    } else {
                        assert(d.push(x)[d.len() as int] == x);
                    }
                }
            }
            if distinct_names(a).contains(name) {
                let k = choose|k: int| 0 <= k < distinct_names(a).len() && distinct_names(a)[k]
                    == name;
                if k < d.len() {
                    assert(d[k] == name);
                    assert(b.map_values(h).contains(name));
                    let i = choose|i: int| 0 <= i < b.len() && b.map_values(h)[i] == name;
                    assert(a.map_values(h)[i] == name);
                } else {
                    assert(a.map_values(h)[a.len() - 1] == x);
                }
            }
        }
        assert(distinct_names(a).no_duplicates()) by {
            if !has_name(b, x) {
                assert(!d.contains(x));
                assert forall|i: int, j: int|
                    0 <= i < d.len() + 1 && 0 <= j < d.len() + 1 && i != j implies d.push(x)[i]
                    != d.push(x)[j] by {
                    if i == d.len() {
                        assert(d.contains(d[j]));
                    } else if j == d.len() {
                        assert(d.contains(d[i]));
                    }
                }
            }
        }
    }
}

} // verus!
