//! Sorting paths into their ranking order.

use vstd::prelude::*;
use std::cmp::Ordering;
use crate::order::{path_order, rank_paths, Rank, lemma_path_order_laws};

verus! {

/// The texts of a list of strings.
pub open spec fn texts(v: Seq<String>) -> Seq<Seq<char>> {
    Seq::new(v.len(), |i: int| v[i]@)
}

/// No path of `s` ranks after a later one.
pub open spec fn is_ranked(s: Seq<Seq<char>>) -> bool {
    forall|i: int, j: int| 0 <= i < j < s.len() ==> path_order(#[trigger] s[i], #[trigger] s[j]) <= 0
}

/// The paths of `s` that rank equal to `e`, in the order they have in `s`.
pub open spec fn peers_of(s: Seq<Seq<char>>, e: Seq<char>) -> Seq<Seq<char>> {
    s.filter(|x: Seq<char>| path_order(x, e) == 0)
}

/// `sorted` holds the paths of `input` in ranking order, and paths that rank
/// equal in the order they had in `input`.
pub open spec fn is_stable_sort_of(sorted: Seq<Seq<char>>, input: Seq<Seq<char>>) -> bool {
    &&& sorted.to_multiset() == input.to_multiset()
    &&& is_ranked(sorted)
    &&& forall|e: Seq<char>| #[trigger] peers_of(sorted, e) == peers_of(input, e)
}

/// The rank of `a` against `b`, in the standard library's terms.
pub fn path_ordering(a: &String, b: &String) -> (r: Ordering)
    ensures
        (r == Ordering::Less) == (path_order(a@, b@) < 0),
        (r == Ordering::Equal) == (path_order(a@, b@) == 0),
        (r == Ordering::Greater) == (path_order(a@, b@) > 0),
{
    proof {
        lemma_path_order_laws(a@, b@, b@);
    }
    match rank_paths(a.as_str(), b.as_str()) {
        Rank::Before => Ordering::Less,
        Rank::Same => Ordering::Equal,
        Rank::After => Ordering::Greater,
    }
}

/// `slice::sort_by` with the path order as comparator: the result is a
/// permutation of the input, in ranking order, and the sort is stable. The
/// comparator is a total preorder, which is what `sort_by` asks of it.
#[verifier::external_body]
pub(crate) fn sort_paths(paths: &mut Vec<String>)
    ensures
        is_stable_sort_of(texts(final(paths)@), texts(old(paths)@)),
{
    paths.sort_by(|a, b| path_ordering(a, b));
}

} // verus!
