//! The JavaScript values that a class may be constructed from, as plain data.

use crate::text::pairs_view;
use vstd::prelude::*;

verus! {

/// An argument of a JavaScript constructor.
#[derive(Debug)]
pub enum JsInit {
    /// A string.
    Text(String),
    /// An array. An element that is no array itself is `None`; of one that is,
    /// its first two items, `None` where an item is missing or is no string.
    List(Vec<Option<(Option<String>, Option<String>)>>),
    /// An object whose values are all strings, in some order of its keys.
    Record(Vec<(String, String)>),
    /// Anything else.
    Other,
}

/// The characters of an optional string, none where there is no string.
pub open spec fn text_or_empty(s: Option<String>) -> Seq<char> {
    match s {
        Some(t) => t@,
        None => Seq::empty(),
    }
}

/// The pairs of an array argument: elements that are arrays, each with its first
/// two items.
pub open spec fn list_pairs(
    items: Seq<Option<(Option<String>, Option<String>)>>,
) -> Seq<(Seq<char>, Seq<char>)>
    decreases items.len(),
{
    if items.len() == 0 {
        seq![]
    } else {
        let before = list_pairs(items.drop_last());
        match items.last() {
            Some((k, v)) => before.push((text_or_empty(k), text_or_empty(v))),
            None => before,
        }
    }
}

/// The pairs of an array argument.
pub fn pairs_of_list(items: Vec<Option<(Option<String>, Option<String>)>>) -> (r: Vec<
    (String, String),
>)
    ensures
        pairs_view(r@) == list_pairs(items@),
{
    let mut out: Vec<(String, String)> = Vec::new();
    let ghost whole = items@;
    assert(pairs_view(out@) =~= list_pairs(whole.take(0)));
    for item in it: items
        invariant
            it.seq() == whole,
            pairs_view(out@) == list_pairs(whole.take(it.index())),
    {
        let ghost before = out@;
        proof {
            assert(whole.take(it.index() + 1).drop_last() =~= whole.take(it.index()));
        }
        match item {
            Some((k, v)) => {
                let key = k.unwrap_or_default();
                let value = v.unwrap_or_default();
                out.push((key, value));
                proof {
                    assert(pairs_view(out@) =~= pairs_view(before).push((key@, value@)));
                }
            },
            None => {},
        }
    }
    assert(whole.take(whole.len() as int) =~= whole);
    out
}

/// An array argument gives a pair for each element that is an array, in order, with
/// its first two items, each empty where it is missing; any other element gives
/// none.
pub proof fn law_list_pairs(
    a: Seq<Option<(Option<String>, Option<String>)>>,
    b: Seq<Option<(Option<String>, Option<String>)>>,
    name: String,
    value: String,
)
    ensures
        list_pairs(a + b) == list_pairs(a) + list_pairs(b),
        list_pairs(seq![None]) == Seq::<(Seq<char>, Seq<char>)>::empty(),
        list_pairs(seq![Some((Some(name), Some(value)))]) == seq![(name@, value@)],
        list_pairs(seq![Some((Some(name), None))]) == seq![(name@, Seq::<char>::empty())],
        list_pairs(seq![Some((None, Some(value)))]) == seq![(Seq::<char>::empty(), value@)],
        list_pairs(seq![Some((None, None))]) == seq![
            (Seq::<char>::empty(), Seq::<char>::empty()),
        ],
    decreases b.len(),
{
    lemma_single_pair(None);
    lemma_single_pair(Some((Some(name), Some(value))));
    lemma_single_pair(Some((Some(name), None)));
    lemma_single_pair(Some((None, Some(value))));
    lemma_single_pair(Some((None, None)));
    if b.len() == 0 {
        assert(a + b =~= a);
        assert(list_pairs(a) + list_pairs(b) =~= list_pairs(a));
    } else {
        law_list_pairs(a, b.drop_last(), name, value);
        assert((a + b).drop_last() =~= a + b.drop_last());
        assert((a + b).last() == b.last());
        assert(list_pairs(a + b) =~= list_pairs(a) + list_pairs(b));
    }
}

proof fn lemma_single_pair(item: Option<(Option<String>, Option<String>)>)
    ensures
        item is None ==> list_pairs(seq![item]) == Seq::<(Seq<char>, Seq<char>)>::empty(),
        item matches Some((k, v)) ==> list_pairs(seq![item]) == seq![
            (text_or_empty(k), text_or_empty(v)),
        ],
{
    let s = seq![item];
    assert(s.drop_last().len() == 0);
    assert(list_pairs(s.drop_last()) =~= seq![]);
    assert(s.last() == item);
    if let Some((k, v)) = item {
        assert(list_pairs(s) =~= seq![(text_or_empty(k), text_or_empty(v))]);
    }
}

} // verus!
