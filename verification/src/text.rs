//! String building blocks: appending to a `String` and joining a list of
//! strings with a separator.

use vstd::prelude::*;
use itertools::Itertools;

verus! {

/// The items of `items`, in order, with `sep` between each two neighbours.
pub open spec fn joined(items: Seq<Seq<char>>, sep: Seq<char>) -> Seq<char>
    decreases items.len(),
{
    if items.len() == 0 {
        Seq::empty()
    } else if items.len() == 1 {
        items[0]
    } else {
        joined(items.drop_last(), sep) + sep + items.last()
    }
}

/// Appends `tail` to `text`.
///
/// Trusted: calls `String::push_str`, which std documents as appending the
/// given slice onto the end of the string.
#[verifier::external_body]
pub(crate) fn push_str(text: &mut String, tail: &str)
    ensures
        final(text)@ == old(text)@ + tail@,
{
    text.push_str(tail)
}

/// Appends the character `c` to `text`.
///
/// Trusted: calls `String::push`, which std documents as appending the given
/// character to the end of the string.
#[verifier::external_body]
pub(crate) fn push_char(text: &mut String, c: char)
    ensures
        final(text)@ == old(text)@.push(c),
{
    text.push(c)
}

/// Joins `items` with `sep` between them.
///
/// Trusted: calls `itertools::Itertools::join` on the slice's iterator. That
/// function writes the first item, then for every further item the separator
/// followed by the item, and returns the empty string for no items; a `String`
/// is written as its own text.
#[verifier::external_body]
pub(crate) fn join(items: &[String], sep: &str) -> (text: String)
    ensures
        text@ == joined(items.deep_view(), sep@),
{
    items.iter().join(sep)
}

/// `part` stands somewhere in `whole`, in one piece.
pub open spec fn occurs_in(part: Seq<char>, whole: Seq<char>) -> bool {
    exists|start: int|
        0 <= start && start + part.len() <= whole.len() && #[trigger] whole.subrange(
            start,
            start + part.len(),
        ) == part
}

/// Every item stands in the joined text.
pub proof fn lemma_joined_holds_items(items: Seq<Seq<char>>, sep: Seq<char>, k: int)
    requires
        0 <= k < items.len(),
    ensures
        occurs_in(items[k], joined(items, sep)),
    decreases items.len(),
{
    let whole = joined(items, sep);
    let part = items[k];
    if items.len() == 1 {
        assert(whole.subrange(0, 0 + part.len() as int) =~= part);
    } else {
        let init = items.drop_last();
        let head = joined(init, sep);
        if k == items.len() - 1 {
            let start = (head.len() + sep.len()) as int;
            assert(whole.subrange(start, start + part.len()) =~= part);
        } else {
            lemma_joined_holds_items(init, sep, k);
            let start = choose|start: int|
                0 <= start && start + part.len() <= head.len() && #[trigger] head.subrange(
                    start,
                    start + part.len(),
                ) == part;
            assert(whole.subrange(start, start + part.len()) =~= head.subrange(
                start,
                start + part.len(),
            ));
        }
    }
}

/// What stands in a part of a text stands in the text.
pub proof fn lemma_occurs_in_transitive(inner: Seq<char>, middle: Seq<char>, outer: Seq<char>)
    requires
        occurs_in(inner, middle),
        occurs_in(middle, outer),
    ensures
        occurs_in(inner, outer),
{
    let a = choose|a: int|
        0 <= a && a + inner.len() <= middle.len() && #[trigger] middle.subrange(
            a,
            a + inner.len(),
        ) == inner;
    let b = choose|b: int|
        0 <= b && b + middle.len() <= outer.len() && #[trigger] outer.subrange(
            b,
            b + middle.len(),
        ) == middle;
    assert(outer.subrange(a + b, a + b + inner.len()) =~= middle.subrange(a, a + inner.len()));
}

} // verus!
