use vstd::prelude::*;

use intervaltree::IntervalTree;

verus! {

#[verifier::external_type_specification]
#[verifier::external_body]
#[verifier::reject_recursive_types(K)]
#[verifier::reject_recursive_types(V)]
pub struct ExIntervalTree<K, V>(IntervalTree<K, V>);

/// The contents of an interval index over timestamp ranges: each stored id
/// maps to the half-open `(start, end)` bounds of its range.
pub uninterp spec fn tree_entries(t: IntervalTree<i64, usize>) -> Map<int, (int, int)>;

/// Holds of every index built by `tree_from_entries`: the stored elements
/// carry pairwise distinct ids, and `tree_entries` describes them exactly.
pub uninterp spec fn tree_ok(t: IntervalTree<i64, usize>) -> bool;

/// Relies on intervaltree's `FromIterator` impl: the tree stores exactly the
/// elements handed to it, each keeping its range and value.
#[verifier::external_body]
pub(crate) fn tree_from_entries(v: &Vec<(i64, i64, usize)>) -> (t: IntervalTree<i64, usize>)
    requires
        forall|i: int, j: int| 0 <= i < j < v@.len() ==> (#[trigger] v@[i]).2 != (#[trigger] v@[j]).2,
    ensures
        tree_ok(t),
        forall|id: int| #[trigger] tree_entries(t).dom().contains(id) ==> exists|i: int|
            0 <= i < v@.len() && (#[trigger] v@[i]).2 as int == id,
        forall|i: int| 0 <= i < v@.len() ==> {
            &&& tree_entries(t).dom().contains((#[trigger] v@[i]).2 as int)
            &&& tree_entries(t)[v@[i].2 as int] == (v@[i].0 as int, v@[i].1 as int)
        },
{
    v.iter().map(|e| intervaltree::Element { range: e.0..e.1, value: e.2 }).collect()
}

/// Relies on intervaltree's `query_point`: it yields exactly the stored
/// elements whose half-open range contains the point, each of them once.
#[verifier::external_body]
pub(crate) fn tree_query_point(t: &IntervalTree<i64, usize>, point: i64) -> (r: Vec<usize>)
    requires
        tree_ok(*t),
    ensures
        forall|i: int, j: int| 0 <= i < j < r@.len() ==> r@[i] != r@[j],
        forall|id: usize| #[trigger] r@.contains(id) <==> {
            &&& tree_entries(*t).dom().contains(id as int)
            &&& tree_entries(*t)[id as int].0 <= point as int
            &&& (point as int) < tree_entries(*t)[id as int].1
        },
{
    t.query_point(point).map(|e| e.value).collect()
}

/// Relies on intervaltree's `query`: it yields exactly the stored elements
/// whose half-open range intersects the given one, each of them once.
#[verifier::external_body]
pub(crate) fn tree_query_range(t: &IntervalTree<i64, usize>, lo: i64, hi: i64) -> (r: Vec<usize>)
    requires
        tree_ok(*t),
        lo < hi,
    ensures
        forall|i: int, j: int| 0 <= i < j < r@.len() ==> r@[i] != r@[j],
        forall|id: usize| #[trigger] r@.contains(id) <==> {
            &&& tree_entries(*t).dom().contains(id as int)
            &&& tree_entries(*t)[id as int].0 < hi as int
            &&& (lo as int) < tree_entries(*t)[id as int].1
        },
{
    t.query(lo..hi).map(|e| e.value).collect()
}

} // verus!
